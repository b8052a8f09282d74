//! Character-level helpers shared by the title and configuration logic.
//!
//! Strings are reasoned about through their view, a `Seq<char>`.
use vstd::prelude::*;

verus! {

/// Unicode `White_Space`: the characters that `char::is_whitespace` accepts.
pub open spec fn is_white_space(c: char) -> bool {
    let u = c as u32;
    ||| 0x9 <= u <= 0xd
    ||| u == 0x20
    ||| u == 0x85
    ||| u == 0xa0
    ||| u == 0x1680
    ||| 0x2000 <= u <= 0x200a
    ||| u == 0x2028
    ||| u == 0x2029
    ||| u == 0x202f
    ||| u == 0x205f
    ||| u == 0x3000
}

/// `s` without its leading white space (`str::trim_start`).
pub open spec fn trim_start(s: Seq<char>) -> Seq<char>
    decreases s.len(),
{
    if s.len() > 0 && is_white_space(s[0]) {
        trim_start(s.drop_first())
    } else {
        s
    }
}

/// `s` without its trailing white space (`str::trim_end`).
pub open spec fn trim_end(s: Seq<char>) -> Seq<char>
    decreases s.len(),
{
    if s.len() > 0 && is_white_space(s.last()) {
        trim_end(s.drop_last())
    } else {
        s
    }
}

/// `s` without leading and trailing white space (`str::trim`).
pub open spec fn trim(s: Seq<char>) -> Seq<char> {
    trim_end(trim_start(s))
}

/// Whether `s` holds only white space (so that trimming it leaves nothing).
pub open spec fn is_blank(s: Seq<char>) -> bool {
    trim(s).len() == 0
}

/// What `str::to_lowercase` returns for a string with the given characters.
///
/// The full Unicode case mapping is not written out here.
pub uninterp spec fn lowercase(s: Seq<char>) -> Seq<char>;

/// Converts `s` into a `String` with `Into::into`, called through the function itself so that
/// the result is known to be one that `into` returns for `s`.
pub fn into_string<S: Into<String>>(s: S) -> (r: String)
    ensures
        call_ensures(<S as Into<String>>::into, (s,), r),
{
    let into = <S as Into<String>>::into;
    into(s)
}

/// Lower-cases `s` with `str::to_lowercase`.
#[verifier::external_body]
pub(crate) fn to_lowercase(s: &str) -> (r: String)
    ensures
        r@ == lowercase(s@),
{
    s.to_lowercase()
}

/// Whether `c` is white space, as `char::is_whitespace` decides.
pub fn char_is_white_space(c: char) -> (r: bool)
    ensures
        r == is_white_space(c),
{
    let u = c as u32;
    (0x9 <= u && u <= 0xd) || u == 0x20 || u == 0x85 || u == 0xa0 || u == 0x1680 || (0x2000 <= u
        && u <= 0x200a) || u == 0x2028 || u == 0x2029 || u == 0x202f || u == 0x205f || u == 0x3000
}

/// The characters of `s`, in order.
pub fn chars_of(s: &str) -> (r: Vec<char>)
    ensures
        r@ == s@,
{
    let n = s.unicode_len();
    let mut r: Vec<char> = Vec::new();
    let mut i: usize = 0;
    while i < n
        invariant
            n == s@.len(),
            i <= n,
            r@ == s@.take(i as int),
        decreases n - i,
    {
        let c = s.get_char(i);
        r.push(c);
        i = i + 1;
        assert(r@ =~= s@.take(i as int));
    }
    assert(r@ =~= s@);
    r
}

/// Stepping over one leading white-space character does not change `trim_start`.
pub proof fn lemma_trim_start_step(s: Seq<char>, lo: int, hi: int)
    requires
        0 <= lo < hi <= s.len(),
        is_white_space(s[lo]),
    ensures
        trim_start(s.subrange(lo, hi)) == trim_start(s.subrange(lo + 1, hi)),
{
    assert(s.subrange(lo, hi).drop_first() =~= s.subrange(lo + 1, hi));
}

/// Stepping over one trailing white-space character does not change `trim_end`.
pub proof fn lemma_trim_end_step(s: Seq<char>, lo: int, hi: int)
    requires
        0 <= lo < hi <= s.len(),
        is_white_space(s[hi - 1]),
    ensures
        trim_end(s.subrange(lo, hi)) == trim_end(s.subrange(lo, hi - 1)),
{
    assert(s.subrange(lo, hi).drop_last() =~= s.subrange(lo, hi - 1));
}

/// The first index at or after `lo` and before `hi` that is not white space, or `hi`.
pub fn skip_white_space_forward(chars: &Vec<char>, lo: usize, hi: usize) -> (r: usize)
    requires
        lo <= hi <= chars.len(),
    ensures
        lo <= r <= hi,
        trim_start(chars@.subrange(lo as int, hi as int)) == chars@.subrange(r as int, hi as int),
{
    let mut i = lo;
    while i < hi && char_is_white_space(chars[i])
        invariant
            lo <= i <= hi <= chars.len(),
            trim_start(chars@.subrange(lo as int, hi as int)) == trim_start(
                chars@.subrange(i as int, hi as int),
            ),
        decreases hi - i,
    {
        proof {
            lemma_trim_start_step(chars@, i as int, hi as int);
        }
        i = i + 1;
    }
    i
}

/// The end of `chars[lo..hi]` once trailing white space is dropped.
pub fn skip_white_space_backward(chars: &Vec<char>, lo: usize, hi: usize) -> (r: usize)
    requires
        lo <= hi <= chars.len(),
    ensures
        lo <= r <= hi,
        trim_end(chars@.subrange(lo as int, hi as int)) == chars@.subrange(lo as int, r as int),
{
    let mut j = hi;
    while j > lo && char_is_white_space(chars[j - 1])
        invariant
            lo <= j <= hi <= chars.len(),
            trim_end(chars@.subrange(lo as int, hi as int)) == trim_end(
                chars@.subrange(lo as int, j as int),
            ),
        decreases j - lo,
    {
        proof {
            lemma_trim_end_step(chars@, lo as int, j as int);
        }
        j = j - 1;
    }
    j
}

/// Whether `pattern` occurs in `chars` starting at index `start`.
pub fn occurs_at(chars: &Vec<char>, start: usize, pattern: &Vec<char>) -> (r: bool)
    requires
        start <= chars.len(),
    ensures
        r == (start + pattern.len() <= chars.len() && chars@.subrange(
            start as int,
            start + pattern.len(),
        ) == pattern@),
{
    if pattern.len() > chars.len() - start {
        return false;
    }
    let mut k: usize = 0;
    while k < pattern.len()
        invariant
            start + pattern.len() <= chars.len(),
            k <= pattern.len(),
            forall|m: int| 0 <= m < k ==> chars@[start + m] == pattern@[m],
        decreases pattern.len() - k,
    {
        if chars[start + k] != pattern[k] {
            assert(chars@.subrange(start as int, start + pattern.len())[k as int] != pattern@[k as int]);
            return false;
        }
        k = k + 1;
    }
    assert(chars@.subrange(start as int, start + pattern.len()) =~= pattern@);
    true
}

/// Whether the characters of `a` and `b` are the same.
pub fn same_text(a: &str, b: &str) -> (r: bool)
    ensures
        r == (a@ == b@),
{
    let x = chars_of(a);
    let y = chars_of(b);
    if x.len() != y.len() {
        return false;
    }
    assert(x@.subrange(0, y@.len() as int) =~= x@);
    occurs_at(&x, 0, &y)
}

} // verus!

verus! {

/// A sequence that starts with a character other than white space keeps a character
/// when its trailing white space is trimmed.
pub proof fn lemma_trim_end_keeps_first(s: Seq<char>)
    requires
        s.len() > 0,
        !is_white_space(s[0]),
    ensures
        trim_end(s).len() > 0,
    decreases s.len(),
{
    if is_white_space(s.last()) {
        if s.len() > 1 {
            assert(s.drop_last()[0] == s[0]);
            lemma_trim_end_keeps_first(s.drop_last());
        }
    }
}

/// Whether `s` holds only white space (`s.trim().is_empty()`).
pub fn is_blank_text(s: &str) -> (r: bool)
    ensures
        r == is_blank(s@),
{
    let chars = chars_of(s);
    let lo = skip_white_space_forward(&chars, 0, chars.len());
    assert(chars@.subrange(0, chars@.len() as int) =~= s@);
    proof {
        let t = chars@.subrange(lo as int, chars@.len() as int);
        if lo < chars.len() {
            if is_white_space(t[0]) {
                // trim_start never stops on white space
                lemma_trim_start_result(s@);
            }
            lemma_trim_end_keeps_first(t);
        }
    }
    lo == chars.len()
}

/// What `trim_start` leaves does not begin with white space.
pub proof fn lemma_trim_start_result(s: Seq<char>)
    ensures
        trim_start(s).len() > 0 ==> !is_white_space(trim_start(s)[0]),
    decreases s.len(),
{
    if s.len() > 0 && is_white_space(s[0]) {
        lemma_trim_start_result(s.drop_first());
    }
}

} // verus!
