//! The run's settings, read from the values of its environment variables.
use vstd::prelude::*;

use crate::text::{chars_of, is_blank, is_blank_text};
use crate::titles::{digit_value, is_ascii_digit};

verus! {

/// The settings of a run.
#[derive(Clone, Debug)]
pub struct Settings {
    /// The Radarr API key.
    pub api_token: String,
    /// The Radarr base URL.
    pub radarr_url: String,
    /// The Radarr quality profile for new movies.
    pub quality_profile_id: u32,
    /// The destination root folder, when one is configured and not blank.
    pub root_folder_path: Option<String>,
    /// Whether to search and report without adding.
    pub dry_run: bool,
    /// The Alamo API base URL.
    pub alamo_url: String,
}

/// Why the settings cannot be used.
#[derive(Clone, Debug, PartialEq, Eq)]
pub enum ConfigError {
    /// `RADARR_API_TOKEN` is not set.
    MissingApiToken,
    /// `RADARR_QUALITY_PROFILE_ID` is not a positive integer; the value is kept.
    InvalidQualityProfile(String),
}

/// The value of a sequence of decimal digits.
pub open spec fn digits_value(s: Seq<char>) -> int
    decreases s.len(),
{
    if s.len() == 0 {
        0
    } else {
        digits_value(s.drop_last()) * 10 + digit_value(s.last())
    }
}

/// Whether every character of `s` is an ASCII digit.
pub open spec fn all_ascii_digits(s: Seq<char>) -> bool {
    forall|i: int| 0 <= i < s.len() ==> #[trigger] is_ascii_digit(s[i])
}

/// What `str::parse::<u32>` reads from `s`: an optional `+`, then one or more ASCII digits
/// whose value fits in a `u32`.
pub open spec fn parsed_u32(s: Seq<char>) -> Option<u32> {
    let d = if s.len() > 0 && s[0] == '+' {
        s.drop_first()
    } else {
        s
    };
    if d.len() > 0 && all_ascii_digits(d) && digits_value(d) <= u32::MAX {
        Some(digits_value(d) as u32)
    } else {
        None
    }
}

/// The value of a prefix of a digit sequence never exceeds the value of the sequence.
proof fn lemma_digits_value_grows(s: Seq<char>, k: int)
    requires
        0 <= k <= s.len(),
        all_ascii_digits(s),
    ensures
        0 <= digits_value(s.take(k)) <= digits_value(s),
    decreases s.len() - k,
{
    if k < s.len() {
        lemma_digits_value_grows(s, k + 1);
        assert(s.take(k + 1).drop_last() =~= s.take(k));
        assert(is_ascii_digit(s[k]));
    } else {
        assert(s.take(k) =~= s);
    }
    lemma_digits_value_nonneg(s.take(k));
}

/// The value of a digit sequence is not negative.
proof fn lemma_digits_value_nonneg(s: Seq<char>)
    requires
        all_ascii_digits(s),
    ensures
        digits_value(s) >= 0,
    decreases s.len(),
{
    if s.len() > 0 {
        assert(is_ascii_digit(s.last()));
        assert(all_ascii_digits(s.drop_last()));
        lemma_digits_value_nonneg(s.drop_last());
    }
}

/// Parses `s` as a `u32` the way `str::parse::<u32>` does.
pub fn parse_u32(s: &str) -> (r: Option<u32>)
    ensures
        r == parsed_u32(s@),
{
    let chars = chars_of(s);
    let start: usize = if chars.len() > 0 && chars[0] == '+' {
        1
    } else {
        0
    };
    let ghost d = if s@.len() > 0 && s@[0] == '+' {
        s@.drop_first()
    } else {
        s@
    };
    assert(d =~= chars@.skip(start as int));
    if start >= chars.len() {
        return None;
    }
    let mut value: u64 = 0;
    let mut i: usize = start;
    while i < chars.len()
        invariant
            chars@ == s@,
            d == (if s@.len() > 0 && s@[0] == '+' {
                s@.drop_first()
            } else {
                s@
            }),
            start < chars@.len(),
            start <= i <= chars@.len(),
            d == chars@.skip(start as int),
            all_ascii_digits(d.take(i - start)),
            value as int == digits_value(d.take(i - start)),
            value <= u32::MAX,
        decreases chars.len() - i,
    {
        let c = chars[i];
        if !('0' <= c && c <= '9') {
            assert(!is_ascii_digit(d[i - start]));
            return None;
        }
        let ghost before = d.take(i - start);
        assert(d.take(i - start + 1).drop_last() =~= before);
        assert(d.take(i - start + 1).last() == c);
        value = value * 10 + ((c as u32) - ('0' as u32)) as u64;
        i = i + 1;
        assert(all_ascii_digits(d.take(i - start))) by {
            assert forall|m: int| 0 <= m < d.take(i - start).len() implies #[trigger] is_ascii_digit(
                d.take(i - start)[m],
            ) by {
                if m < i - start - 1 {
                    assert(d.take(i - start)[m] == before[m]);
                }
            }
        }
        if value > 0xffff_ffff {
            proof {
                if all_ascii_digits(d) {
                    lemma_digits_value_grows(d, i - start);
                }
            }
            return None;
        }
    }
    assert(d.take(i - start) =~= d);
    Some(value as u32)
}

/// `c` in lower case, where it is an ASCII capital letter.
pub open spec fn ascii_lower(c: char) -> char {
    if 'A' <= c <= 'Z' {
        ((c as u32) + 32) as char
    } else {
        c
    }
}

/// Whether `a` and `b` are equal ignoring ASCII case (`str::eq_ignore_ascii_case`).
pub open spec fn eq_ignore_ascii_case(a: Seq<char>, b: Seq<char>) -> bool {
    a.len() == b.len() && forall|i: int| 0 <= i < a.len() ==> #[trigger] ascii_lower(a[i]) == ascii_lower(b[i])
}

/// `c` in lower case, where it is an ASCII capital letter.
fn to_ascii_lower(c: char) -> (r: char)
    ensures
        r == ascii_lower(c),
{
    if 'A' <= c && c <= 'Z' {
        let u = (c as u32) + 32;
        assert(0x61 <= u <= 0x7a);
        char_from_ascii(u)
    } else {
        c
    }
}

/// The character with an ASCII code point `u`.
fn char_from_ascii(u: u32) -> (c: char)
    requires
        u < 128,
    ensures
        c == u as char,
{
    let b = u as u8;
    b as char
}

/// Whether `a` and `b` are equal ignoring ASCII case.
fn same_ignoring_ascii_case(a: &str, b: &str) -> (r: bool)
    ensures
        r == eq_ignore_ascii_case(a@, b@),
{
    let x = chars_of(a);
    let y = chars_of(b);
    if x.len() != y.len() {
        return false;
    }
    let mut i: usize = 0;
    while i < x.len()
        invariant
            x@ == a@,
            y@ == b@,
            x@.len() == y@.len(),
            i <= x@.len(),
            forall|m: int| 0 <= m < i ==> #[trigger] ascii_lower(x@[m]) == ascii_lower(y@[m]),
        decreases x.len() - i,
    {
        if to_ascii_lower(x[i]) != to_ascii_lower(y[i]) {
            return false;
        }
        i = i + 1;
    }
    true
}

/// Whether a `DRY_RUN` value turns dry runs on: `1`, or `true` in any ASCII case.
pub open spec fn is_dry_run_value(v: Seq<char>) -> bool {
    v == "1"@ || eq_ignore_ascii_case(v, "true"@)
}

/// The Radarr base URL: the explicit one, or one composed of protocol and hostname.
pub open spec fn radarr_url_of(
    url: Option<Seq<char>>,
    protocol: Option<Seq<char>>,
    hostname: Option<Seq<char>>,
) -> Seq<char> {
    match url {
        Some(u) => u,
        None => {
            let p = match protocol {
                Some(p) => p,
                None => "http"@,
            };
            let h = match hostname {
                Some(h) => h,
                None => "localhost:7878"@,
            };
            p + "://"@ + h
        },
    }
}

/// The view of an optional string.
pub open spec fn opt_view(s: Option<String>) -> Option<Seq<char>> {
    match s {
        Some(x) => Some(x@),
        None => None,
    }
}

/// Reads the settings from the values of `RADARR_API_TOKEN`, `RADARR_API_URL`,
/// `RADARR_API_PROTOCOL`, `RADARR_API_HOSTNAME`, `RADARR_QUALITY_PROFILE_ID`,
/// `RADARR_ROOT_FOLDER_PATH`, `DRY_RUN` and `ALAMO_API_URL`; `None` stands for a variable that
/// is not set.
pub fn load_settings(
    api_token: Option<String>,
    radarr_url: Option<String>,
    protocol: Option<String>,
    hostname: Option<String>,
    quality_profile: Option<String>,
    root_folder_path: Option<String>,
    dry_run: Option<String>,
    alamo_url: Option<String>,
) -> (r: Result<Settings, ConfigError>)
    ensures
        api_token is None <==> r == Err::<Settings, ConfigError>(ConfigError::MissingApiToken),
        ({
            let q = match quality_profile {
                Some(q) => q@,
                None => "1"@,
            };
            match r {
                Err(ConfigError::InvalidQualityProfile(v)) => api_token is Some && v@ == q && !(
                parsed_u32(q) matches Some(id) && id > 0),
                Err(ConfigError::MissingApiToken) => api_token is None,
                Ok(s) => {
                    &&& api_token matches Some(t) && s.api_token@ == t@
                    &&& parsed_u32(q) == Some(s.quality_profile_id)
                    &&& s.quality_profile_id > 0
                    &&& s.radarr_url@ == radarr_url_of(
                        opt_view(radarr_url),
                        opt_view(protocol),
                        opt_view(hostname),
                    )
                    &&& opt_view(s.root_folder_path) == match opt_view(root_folder_path) {
                        Some(p) => if is_blank(p) {
                            None
                        } else {
                            Some(p)
                        },
                        None => None,
                    }
                    &&& s.dry_run == (opt_view(dry_run) matches Some(v) && is_dry_run_value(v))
                    &&& s.alamo_url@ == match alamo_url {
                        Some(u) => u@,
                        None => "https://drafthouse.com"@,
                    }
                },
            }
        }),
        r matches Ok(st) ==> (st.dry_run <==> (dry_run matches Some(v) && (v@ == seq!['1'] || (
        v@.len() == 4 && (v@[0] == 't' || v@[0] == 'T') && (v@[1] == 'r' || v@[1] == 'R') && (
        v@[2] == 'u' || v@[2] == 'U') && (v@[3] == 'e' || v@[3] == 'E'))))),
        api_token is Some ==> (r is Ok <==> ({
            let q = match quality_profile {
                Some(q) => q@,
                None => "1"@,
            };
            parsed_u32(q) matches Some(id) && id > 0
        })),
{
    let api_token = match api_token {
        Some(t) => t,
        None => return Err(ConfigError::MissingApiToken),
    };
    let radarr_url = match radarr_url {
        Some(u) => u,
        None => {
            let p = match protocol {
                Some(p) => p,
                None => String::from_str("http"),
            };
            let h = match hostname {
                Some(h) => h,
                None => String::from_str("localhost:7878"),
            };
            p.concat("://").concat(h.as_str())
        },
    };
    let quality_profile = match quality_profile {
        Some(q) => q,
        None => String::from_str("1"),
    };
    let quality_profile_id = match parse_u32(quality_profile.as_str()) {
        Some(id) => if id > 0 {
            id
        } else {
            return Err(ConfigError::InvalidQualityProfile(quality_profile));
        },
        None => return Err(ConfigError::InvalidQualityProfile(quality_profile)),
    };
    let root_folder_path = match root_folder_path {
        Some(p) => if is_blank_text(p.as_str()) {
            None
        } else {
            Some(p)
        },
        None => None,
    };
    let dry_run = match dry_run {
        Some(v) => {
            let one = crate::text::same_text(v.as_str(), "1");
            proof {
                lemma_dry_run_values(v@);
            }
            one || same_ignoring_ascii_case(v.as_str(), "true")
        },
        None => false,
    };
    let alamo_url = match alamo_url {
        Some(u) => u,
        None => String::from_str("https://drafthouse.com"),
    };
    Ok(
        Settings {
            api_token,
            radarr_url,
            quality_profile_id,
            root_folder_path,
            dry_run,
            alamo_url,
        },
    )
}

/// `DRY_RUN` turns dry runs on exactly when it is `1`, or `true` with each letter in either
/// case; so `0`, `false`, `yes` and the empty value leave them off.
pub proof fn lemma_dry_run_values(v: Seq<char>)
    ensures
        is_dry_run_value(v) <==> (v == seq!['1'] || (v.len() == 4 && (v[0] == 't' || v[0] == 'T')
            && (v[1] == 'r' || v[1] == 'R') && (v[2] == 'u' || v[2] == 'U') && (v[3] == 'e' || v[3]
            == 'E'))),
        !is_dry_run_value(seq!['0']),
        !is_dry_run_value(seq!['f', 'a', 'l', 's', 'e']),
{
    reveal_strlit("1");
    reveal_strlit("true");
    assert("1"@ =~= seq!['1']);
    assert(ascii_lower('T') == 't');
    assert(ascii_lower('R') == 'r');
    assert(ascii_lower('U') == 'u');
    assert(ascii_lower('E') == 'e');
    if v.len() == 4 && eq_ignore_ascii_case(v, "true"@) {
        assert(ascii_lower(v[0]) == ascii_lower("true"@[0]));
        assert(ascii_lower(v[1]) == ascii_lower("true"@[1]));
        assert(ascii_lower(v[2]) == ascii_lower("true"@[2]));
        assert(ascii_lower(v[3]) == ascii_lower("true"@[3]));
    }
    if v.len() == 4 && (v[0] == 't' || v[0] == 'T') && (v[1] == 'r' || v[1] == 'R') && (v[2] == 'u'
        || v[2] == 'U') && (v[3] == 'e' || v[3] == 'E') {
        assert forall|i: int| 0 <= i < v.len() implies #[trigger] ascii_lower(v[i]) == ascii_lower(
            "true"@[i],
        ) by {
            if i == 0 {
            } else if i == 1 {
            } else if i == 2 {
            } else {
            }
        }
    }
    assert(!eq_ignore_ascii_case(seq!['0'], "true"@));
    assert(!eq_ignore_ascii_case(seq!['f', 'a', 'l', 's', 'e'], "true"@));
    assert(seq!['0'][0] != seq!['1'][0]);
}

} // verus!
