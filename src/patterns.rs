//! Channel references, page scraping and feed reading, by pattern matching.

use crate::text::{chars_of, concat_text, text_of_chars};
use vstd::prelude::*;

verus! {

/// Whether `pattern` matches somewhere in `text`; `None` when the pattern
/// does not compile.
pub uninterp spec fn regex_finds(pattern: Seq<char>, text: Seq<char>) -> Option<bool>;

/// The text of group `group` of the leftmost match of `pattern` in `text`;
/// `None` when there is no match, the group did not take part in it, or the
/// pattern does not compile.
pub uninterp spec fn regex_first_capture(pattern: Seq<char>, text: Seq<char>, group: nat) -> Option<Seq<char>>;

/// For each successive non-overlapping match of `pattern` in `text`, the
/// text of its group `group`, if that group took part; empty when the
/// pattern does not compile.
pub uninterp spec fn regex_all_captures(pattern: Seq<char>, text: Seq<char>, group: nat) -> Seq<Option<Seq<char>>>;

/// Relies on regex's `Regex::new` and `Regex::is_match`.
#[verifier::external_body]
fn regex_is_match(pattern: &str, text: &str) -> (r: Option<bool>)
    ensures
        r == regex_finds(pattern@, text@),
{
    regex::Regex::new(pattern).ok().map(|re| re.is_match(text))
}

/// Relies on regex's `Regex::new`, `Regex::captures` and `Captures::get`.
#[verifier::external_body]
fn regex_capture(pattern: &str, text: &str, group: usize) -> (r: Option<String>)
    ensures
        crate::model::opt_text(r) == regex_first_capture(pattern@, text@, group as nat),
{
    let re = regex::Regex::new(pattern).ok()?;
    re.captures(text).and_then(|c| c.get(group)).map(|m| m.as_str().to_string())
}

/// Relies on regex's `Regex::new`, `Regex::captures_iter` and `Captures::get`.
#[verifier::external_body]
fn regex_captures(pattern: &str, text: &str, group: usize) -> (r: Vec<Option<String>>)
    ensures
        r@.map_values(|o: Option<String>| crate::model::opt_text(o)) == regex_all_captures(pattern@, text@, group as nat),
{
    match regex::Regex::new(pattern) {
        Ok(re) => re.captures_iter(text).map(|c| c.get(group).map(|m| m.as_str().to_string())).collect(),
        Err(_) => Vec::new(),
    }
}

/// A channel's custom name: word characters, dots and dashes.
pub const CUSTOM_URL_PATTERN: &'static str = r"^[\w.-]+$";

/// A platform-B login: word characters.
pub const USER_LOGIN_PATTERN: &'static str = r"^\w+$";

/// The markup forms a channel page gives its id in, in order of preference.
pub const CHANNEL_ID_CANONICAL: &'static str = r#"<link rel="canonical" href="https://www\.youtube\.com/channel/(.+?)">"#;
pub const CHANNEL_ID_OG_URL: &'static str = r#"<meta property="og:url" content="https://www\.youtube\.com/channel/(.+?)">"#;
pub const CHANNEL_ID_IDENTIFIER: &'static str = r#"<meta itemprop="identifier" content="(.+?)">"#;
pub const CHANNEL_ID_RSS: &'static str = r#"<link rel="alternate" type="application/rss\+xml" title="RSS" href="https://www\.youtube\.com/feeds/videos\.xml\?channel_id=(.+?)">"#;

/// A video id in an uploads feed.
pub const VIDEO_ID_PATTERN: &'static str = "<yt:videoId>(.+?)</yt:videoId>";

pub open spec fn channel_id_patterns() -> Seq<Seq<char>> {
    seq![CHANNEL_ID_CANONICAL@, CHANNEL_ID_OG_URL@, CHANNEL_ID_IDENTIFIER@, CHANNEL_ID_RSS@]
}

/// Whether the text is a plausible custom channel name.
pub fn validate_custom_url(custom_url: &str) -> (r: bool)
    ensures
        r == (regex_finds(CUSTOM_URL_PATTERN@, custom_url@) == Some(true)),
{
    match regex_is_match(CUSTOM_URL_PATTERN, custom_url) {
        Some(b) => b,
        None => false,
    }
}

/// Whether the text is a plausible platform-B login.
pub fn validate_user_login(login: &str) -> (r: bool)
    ensures
        r == (regex_finds(USER_LOGIN_PATTERN@, login@) == Some(true)),
{
    match regex_is_match(USER_LOGIN_PATTERN, login) {
        Some(b) => b,
        None => false,
    }
}

/// The capture of the first of `pats` that yields one.
pub open spec fn first_capture(pats: Seq<Seq<char>>, page: Seq<char>) -> Option<Seq<char>>
    decreases pats.len(),
{
    if pats.len() == 0 {
        None
    } else {
        match first_capture(pats.drop_last(), page) {
            Some(id) => Some(id),
            None => regex_first_capture(pats.last(), page, 1),
        }
    }
}

/// The channel id a channel page gives, from the first markup form present.
pub fn extract_channel_id(page: &str) -> (r: Option<String>)
    ensures
        crate::model::opt_text(r) == first_capture(channel_id_patterns(), page@),
{
    let pats: Vec<&str> = vec![CHANNEL_ID_CANONICAL, CHANNEL_ID_OG_URL, CHANNEL_ID_IDENTIFIER, CHANNEL_ID_RSS];
    let ghost pv = pats@.map_values(|p: &str| p@);
    assert(pv =~= channel_id_patterns());
    let mut i: usize = 0;
    assert(pv.take(0) =~= Seq::<Seq<char>>::empty());
    while i < pats.len()
        invariant
            i <= pats.len(),
            pv == pats@.map_values(|p: &str| p@),
            pv == channel_id_patterns(),
            first_capture(pv.take(i as int), page@) is None,
        decreases pats.len() - i,
    {
        assert(pv.take(i + 1).drop_last() =~= pv.take(i as int));
        match regex_capture(pats[i], page, 1) {
            Some(id) => {
                proof {
                    assert(pv[i as int] == pats@[i as int]@);
                    lemma_first_capture_found(pv, page@, i as int);
                }
                return Some(id);
            },
            None => {},
        }
        i = i + 1;
    }
    assert(pv.take(i as int) =~= pv);
    None
}

/// Once a pattern yields a capture, the later ones are not consulted.
proof fn lemma_first_capture_found(pats: Seq<Seq<char>>, page: Seq<char>, i: int)
    requires
        0 <= i < pats.len(),
        first_capture(pats.take(i), page) is None,
        regex_first_capture(pats[i], page, 1) is Some,
    ensures
        first_capture(pats, page) == regex_first_capture(pats[i], page, 1),
    decreases pats.len() - i,
{
    assert(pats.take(i + 1).drop_last() =~= pats.take(i));
    if i + 1 < pats.len() {
        lemma_first_capture_prefix(pats, page, i + 1);
    } else {
        assert(pats.take(i + 1) =~= pats);
    }
}

/// A capture found in a prefix of the patterns stands for all of them.
proof fn lemma_first_capture_prefix(pats: Seq<Seq<char>>, page: Seq<char>, k: int)
    requires
        0 <= k <= pats.len(),
        first_capture(pats.take(k), page) is Some,
    ensures
        first_capture(pats, page) == first_capture(pats.take(k), page),
    decreases pats.len() - k,
{
    if k < pats.len() {
        assert(pats.take(k + 1).drop_last() =~= pats.take(k));
        lemma_first_capture_prefix(pats, page, k + 1);
    } else {
        assert(pats.take(k) =~= pats);
    }
}

/// The captured texts, skipping matches where the group took no part.
pub open spec fn present(caps: Seq<Option<Seq<char>>>) -> Seq<Seq<char>>
    decreases caps.len(),
{
    if caps.len() == 0 {
        Seq::empty()
    } else {
        match caps.last() {
            Some(t) => present(caps.drop_last()).push(t),
            None => present(caps.drop_last()),
        }
    }
}

/// The video ids of an uploads feed, in feed order.
pub fn feed_video_ids(feed_body: &str) -> (r: Vec<String>)
    ensures
        crate::pending::texts(r@) == present(regex_all_captures(VIDEO_ID_PATTERN@, feed_body@, 1)),
{
    let caps = regex_captures(VIDEO_ID_PATTERN, feed_body, 1);
    let ghost cv = caps@.map_values(|o: Option<String>| crate::model::opt_text(o));
    let mut out: Vec<String> = Vec::new();
    let mut i: usize = 0;
    assert(cv.take(0) =~= Seq::<Option<Seq<char>>>::empty());
    while i < caps.len()
        invariant
            i <= caps.len(),
            cv == caps@.map_values(|o: Option<String>| crate::model::opt_text(o)),
            crate::pending::texts(out@) == present(cv.take(i as int)),
        decreases caps.len() - i,
    {
        assert(cv.take(i + 1).drop_last() =~= cv.take(i as int));
        match &caps[i] {
            Some(t) => {
                out.push(t.clone());
                assert(crate::pending::texts(out@) =~= present(cv.take(i as int)).push(t@));
            },
            None => {},
        }
        i = i + 1;
    }
    assert(cv.take(i as int) =~= cv);
    out
}

/// `s` with every leading repetition of `p` removed, as `str::trim_start_matches` does.
pub open spec fn strip_prefixes(s: Seq<char>, p: Seq<char>) -> Seq<char>
    decreases s.len(),
{
    if 0 < p.len() <= s.len() && s.take(p.len() as int) == p {
        strip_prefixes(s.skip(p.len() as int), p)
    } else {
        s
    }
}

/// `s` with every trailing repetition of `p` removed, as `str::trim_end_matches` does.
pub open spec fn strip_suffixes(s: Seq<char>, p: Seq<char>) -> Seq<char>
    decreases s.len(),
{
    if 0 < p.len() <= s.len() && s.skip(s.len() - p.len()) == p {
        strip_suffixes(s.take(s.len() - p.len()), p)
    } else {
        s
    }
}

/// Removes every leading repetition of `p`.
pub fn trim_start_all(s: &Vec<char>, p: &str) -> (r: Vec<char>)
    ensures
        r@ == strip_prefixes(s@, p@),
{
    let ps = chars_of(p);
    let mut i: usize = 0;
    assert(s@.skip(0) =~= s@);
    loop
        invariant
            i <= s.len(),
            ps@ == p@,
            strip_prefixes(s@.skip(i as int), p@) == strip_prefixes(s@, p@),
        ensures
            strip_prefixes(s@.skip(i as int), p@) == s@.skip(i as int),
        decreases s.len() - i,
    {
        if ps.len() == 0 || ps.len() > s.len() - i {
            break;
        }
        assert(s@.skip(i as int).take(ps.len() as int) =~= s@.subrange(i as int, i + ps.len()));
        if !starts_with_at(s, i, &ps) {
            break;
        }
        assert(s@.skip(i as int).skip(ps.len() as int) =~= s@.skip(i + ps.len()));
        i = i + ps.len();
    }
    let mut out: Vec<char> = Vec::new();
    let mut k: usize = i;
    while k < s.len()
        invariant
            i <= k <= s.len(),
            out@ == s@.subrange(i as int, k as int),
        decreases s.len() - k,
    {
        out.push(s[k]);
        k = k + 1;
        assert(out@ =~= s@.subrange(i as int, k as int));
    }
    assert(out@ =~= s@.skip(i as int));
    out
}

/// Removes every trailing repetition of `p`.
pub fn trim_end_all(s: &Vec<char>, p: &str) -> (r: Vec<char>)
    ensures
        r@ == strip_suffixes(s@, p@),
{
    let ps = chars_of(p);
    let mut n: usize = s.len();
    assert(s@.take(n as int) =~= s@);
    loop
        invariant
            n <= s.len(),
            ps@ == p@,
            strip_suffixes(s@.take(n as int), p@) == strip_suffixes(s@, p@),
        ensures
            strip_suffixes(s@.take(n as int), p@) == s@.take(n as int),
        decreases n,
    {
        if ps.len() == 0 || ps.len() > n {
            break;
        }
        assert(s@.take(n as int).skip(n - ps.len()) =~= s@.subrange(n - ps.len(), n as int));
        if !starts_with_at(s, n - ps.len(), &ps) {
            break;
        }
        assert(s@.take(n as int).take(n - ps.len()) =~= s@.take(n - ps.len()));
        n = n - ps.len();
    }
    let mut out: Vec<char> = Vec::new();
    let mut k: usize = 0;
    while k < n
        invariant
            k <= n <= s.len(),
            out@ == s@.take(k as int),
        decreases n - k,
    {
        out.push(s[k]);
        k = k + 1;
        assert(out@ =~= s@.take(k as int));
    }
    out
}

/// Whether `pat` occurs in `s` at position `i`.
fn starts_with_at(s: &Vec<char>, i: usize, pat: &Vec<char>) -> (r: bool)
    requires
        i + pat.len() <= s.len(),
    ensures
        r == (s@.subrange(i as int, i + pat.len()) == pat@),
{
    let mut k: usize = 0;
    while k < pat.len()
        invariant
            i + pat.len() <= s.len(),
            k <= pat.len(),
            forall|j: int| 0 <= j < k ==> s@[i + j] == pat@[j],
        decreases pat.len() - k,
    {
        if s[i + k] != pat[k] {
            assert(s@.subrange(i as int, i + pat.len())[k as int] != pat@[k as int]);
            return false;
        }
        k = k + 1;
    }
    assert(s@.subrange(i as int, i + pat.len()) =~= pat@);
    true
}

/// The handle in a channel reference: the text after any handle-page
/// address prefix and any leading `@`.
pub open spec fn handle_of(query: Seq<char>) -> Seq<char> {
    strip_prefixes(
        strip_prefixes(strip_prefixes(query, "https://www.youtube.com/@"@), "https://youtube.com/@"@),
        "@"@,
    )
}

/// The channel id in a reference that is a channel address or a bare id.
pub open spec fn bare_channel_id(query: Seq<char>) -> Seq<char> {
    strip_prefixes(strip_prefixes(query, "https://www.youtube.com/channel/"@), "https://youtube.com/channel/"@)
}

/// The name a channel reference gives, whichever address form it takes.
pub open spec fn reference_name(query: Seq<char>) -> Seq<char> {
    strip_suffixes(
        strip_prefixes(
            strip_prefixes(
                strip_prefixes(
                    strip_prefixes(strip_prefixes(query, "https://www.youtube.com/@"@), "https://www.youtube.com/channel/"@),
                    "https://youtube.com/@"@,
                ),
                "https://youtube.com/channel/"@,
            ),
            "@"@,
        ),
        "/featured"@,
    )
}

/// The handle page to fetch for a channel reference.
pub fn handle_page_url(query: &str) -> (r: String)
    ensures
        r@ == "https://www.youtube.com/@"@ + handle_of(query@),
{
    let q = chars_of(query);
    let a = trim_start_all(&q, "https://www.youtube.com/@");
    let b = trim_start_all(&a, "https://youtube.com/@");
    let c = trim_start_all(&b, "@");
    let name = text_of_chars(&c);
    concat_text("https://www.youtube.com/@", name.as_str())
}

/// The channel id a reference names directly, when it is not a handle.
pub fn fallback_channel_id(query: &str) -> (r: String)
    ensures
        r@ == bare_channel_id(query@),
{
    let q = chars_of(query);
    let a = trim_start_all(&q, "https://www.youtube.com/channel/");
    let b = trim_start_all(&a, "https://youtube.com/channel/");
    text_of_chars(&b)
}

/// The name a channel reference gives, for validation.
pub fn reference_name_of(query: &str) -> (r: String)
    ensures
        r@ == reference_name(query@),
{
    let q = chars_of(query);
    let a = trim_start_all(&q, "https://www.youtube.com/@");
    let b = trim_start_all(&a, "https://www.youtube.com/channel/");
    let c = trim_start_all(&b, "https://youtube.com/@");
    let d = trim_start_all(&c, "https://youtube.com/channel/");
    let e = trim_start_all(&d, "@");
    let f = trim_end_all(&e, "/featured");
    text_of_chars(&f)
}

/// The channel id for a reference: the one its handle page gave, else the
/// id the reference names directly.
pub fn pick_channel_id(resolved: &Result<String, crate::model::YtApiError>, query: &str) -> (r: String)
    ensures
        r@ == match resolved {
            Ok(id) => id@,
            Err(_) => bare_channel_id(query@),
        },
{
    match resolved {
        Ok(id) => id.clone(),
        Err(_) => fallback_channel_id(query),
    }
}

/// The login a platform-B reference gives: the text after its channel address prefix.
pub fn tw_login_of(query: &str) -> (r: String)
    ensures
        r@ == strip_prefixes(query@, "https://www.twitch.tv/"@),
{
    let q = chars_of(query);
    let a = trim_start_all(&q, "https://www.twitch.tv/");
    text_of_chars(&a)
}

} // verus!
