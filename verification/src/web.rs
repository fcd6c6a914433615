//! URLs as the launcher reads them (host, path, decoded query pairs) and the
//! percent-encoding of the launcher URL inside a `roblox-player:` URI.

use vstd::prelude::*;
use vstd::utf8::encode_utf8;
use crate::text::{chars_of, has_suffix, ends_with_str};
use crate::json::str_eq;

verus! {

/// Host, path and decoded query pairs of a parsed URL.
pub struct UrlParts {
    pub host: Option<String>,
    pub path: String,
    pub query: Vec<(String, String)>,
}

/// Plain-value form of `UrlParts`.
pub type UrlView = (Option<Seq<char>>, Seq<char>, Seq<(Seq<char>, Seq<char>)>);

pub open spec fn opt_str_view(s: Option<String>) -> Option<Seq<char>> {
    match s {
        Some(t) => Some(t@),
        None => None,
    }
}

pub open spec fn pairs_view(q: Seq<(String, String)>) -> Seq<(Seq<char>, Seq<char>)> {
    q.map_values(|p: (String, String)| (p.0@, p.1@))
}

pub open spec fn url_view(u: UrlParts) -> UrlView {
    (opt_str_view(u.host), u.path@, pairs_view(u.query@))
}

/// WHATWG parsing of `s` by the `url` crate: host (`host_str`), path
/// (`path`) and the form-decoded query pairs (`query_pairs`), or `None`
/// when the text is not a URL.
pub uninterp spec fn url_parse(s: Seq<char>) -> Option<UrlView>;

/// Calls `url::Url::parse` and reads `host_str`, `path` and `query_pairs`
/// off the result. Trusted: the parts are `url_parse` of the text.
#[verifier::external_body]
pub(crate) fn parse_url(s: &str) -> (r: Option<UrlParts>)
    ensures
        r matches Some(u) ==> url_parse(s@) == Some(url_view(u)),
        r is None ==> url_parse(s@) is None,
{
    let u = url::Url::parse(s).ok()?;
    Some(UrlParts {
        host: u.host_str().map(|h| h.to_string()),
        path: u.path().to_string(),
        query: u.query_pairs().map(|(k, v)| (k.into_owned(), v.into_owned())).collect(),
    })
}

/// Bytes that percent-encoding leaves alone: ASCII letters and digits and
/// `-` `.` `_` `~`.
pub open spec fn url_unreserved(b: u8) -> bool {
    ||| 48 <= b <= 57
    ||| 65 <= b <= 90
    ||| 97 <= b <= 122
    ||| b == 45
    ||| b == 46
    ||| b == 95
    ||| b == 126
}

/// Upper-case hexadecimal digit of `d` (0..16).
pub open spec fn hex_upper(d: u8) -> char {
    if d < 10 {
        ((d + 48) as u32) as char
    } else {
        ((d + 55) as u32) as char
    }
}

/// Every byte of `bytes` kept when unreserved, else written as `%XX`.
pub open spec fn percent_encode(bytes: Seq<u8>) -> Seq<char>
    decreases bytes.len(),
{
    if bytes.len() == 0 {
        Seq::<char>::empty()
    } else {
        let b = bytes.last();
        percent_encode(bytes.drop_last()) + if url_unreserved(b) {
            seq![(b as u32) as char]
        } else {
            seq!['%', hex_upper(b / 16), hex_upper(b % 16)]
        }
    }
}

/// Calls `urlencoding::encode`. Trusted: as that crate documents, every
/// UTF-8 byte except ASCII letters, digits and `-` `_` `.` `~` becomes `%XX`
/// with upper-case hex digits.
#[verifier::external_body]
pub(crate) fn url_encode(s: &str) -> (r: String)
    ensures
        r@ == percent_encode(encode_utf8(s@)),
{
    urlencoding::encode(s).into_owned()
}

/// The value of the last pair named `key` (a query collected into a map keeps
/// the last value of a repeated name).
pub open spec fn query_last(q: Seq<(Seq<char>, Seq<char>)>, key: Seq<char>) -> Option<Seq<char>>
    decreases q.len(),
{
    if q.len() == 0 {
        None
    } else if q.last().0 == key {
        Some(q.last().1)
    } else {
        query_last(q.drop_last(), key)
    }
}

/// `query_last` over the query pairs of a parsed URL.
pub fn query_value(u: &UrlParts, key: &str) -> (r: Option<String>)
    ensures
        r matches Some(v) ==> query_last(pairs_view(u.query@), key@) == Some(v@),
        r is None ==> query_last(pairs_view(u.query@), key@) is None,
{
    let mut i = u.query.len();
    let ghost q = pairs_view(u.query@);
    assert(q.subrange(0, i as int) =~= q);
    while i > 0
        invariant
            i <= u.query@.len(),
            q == pairs_view(u.query@),
            query_last(q, key@) == query_last(q.subrange(0, i as int), key@),
        decreases i,
    {
        let ghost pre = q.subrange(0, i as int);
        assert(pre.last() == q[i - 1]);
        assert(pre.drop_last() =~= q.subrange(0, i - 1));
        if str_eq(u.query[i - 1].0.as_str(), key) {
            return Some(crate::text::owned(u.query[i - 1].1.as_str()));
        }
        i = i - 1;
    }
    None
}

/// Whether `host` is `roblox.com` or one of its subdomains.
pub open spec fn is_roblox_host(host: Seq<char>) -> bool {
    host == "roblox.com"@ || has_suffix(host, ".roblox.com"@)
}

pub fn roblox_host(host: &str) -> (r: bool)
    ensures
        r == is_roblox_host(host@),
{
    str_eq(host, "roblox.com") || ends_with_str(host, ".roblox.com")
}

/// The proxy's host rule: `roblox.com` itself and every name that ends in
/// `.roblox.com` (any subdomain, such as `games.roblox.com`) are allowed,
/// and nothing else is.
pub proof fn law_roblox_hosts(sub: Seq<char>, host: Seq<char>)
    ensures
        is_roblox_host("roblox.com"@),
        is_roblox_host(sub + ".roblox.com"@),
        is_roblox_host(host) ==> host == "roblox.com"@ || exists|s: Seq<char>| host == s + ".roblox.com"@,
{
    let h = sub + ".roblox.com"@;
    let n = ".roblox.com"@.len();
    assert(h.subrange(h.len() - n, h.len() as int) =~= ".roblox.com"@);
    if is_roblox_host(host) && host != "roblox.com"@ {
        let s = host.subrange(0, host.len() - n);
        assert(host =~= s + ".roblox.com"@);
    }
}

/// The JSON proxy fetches a URL exactly when it parses and its host is
/// `roblox.com` or a subdomain of it; a URL that parses with any other host,
/// or none, is refused.
pub proof fn law_proxy_allows_roblox_subdomains(url: Seq<char>, sub: Seq<char>)
    ensures
        (url_parse(url) matches Some(u) && u.0 == Some(sub + ".roblox.com"@)) ==> proxy_allowed_spec(url)
            == Some(true),
        (url_parse(url) matches Some(u) && u.0 == Some("roblox.com"@)) ==> proxy_allowed_spec(url) == Some(true),
        proxy_allowed_spec(url) == Some(true) ==> (url_parse(url) matches Some(u) && (u.0 == Some("roblox.com"@)
            || exists|s: Seq<char>| u.0 == Some(s + ".roblox.com"@))),
        url_parse(url) is None <==> proxy_allowed_spec(url) is None,
{
    law_roblox_hosts(sub, sub);
    match url_parse(url) {
        Some(u) => match u.0 {
            Some(h) => law_roblox_hosts(sub, h),
            None => {
                reveal_strlit("roblox.com");
                reveal_strlit(".roblox.com");
                assert("roblox.com"@.len() == 10);
                assert(".roblox.com"@.len() == 11);
                assert(Seq::<char>::empty() != "roblox.com"@);
                assert(!has_suffix(Seq::<char>::empty(), ".roblox.com"@));
                assert(!is_roblox_host(Seq::<char>::empty()));
            },
        },
        None => {},
    }
}

/// Whether `host` is `ro.blox.com` (the short-link domain) or a subdomain.
pub open spec fn is_short_link_host(host: Seq<char>) -> bool {
    host == "ro.blox.com"@ || has_suffix(host, ".ro.blox.com"@)
}

pub fn short_link_host(host: &str) -> (r: bool)
    ensures
        r == is_short_link_host(host@),
{
    str_eq(host, "ro.blox.com") || ends_with_str(host, ".ro.blox.com")
}

/// What the JSON proxy allows: only URLs whose host is on `roblox.com`.
pub open spec fn proxy_allowed_spec(url: Seq<char>) -> Option<bool> {
    match url_parse(url) {
        None => None,
        Some(u) => Some(match u.0 {
            Some(h) => is_roblox_host(h),
            None => is_roblox_host(Seq::<char>::empty()),
        }),
    }
}

/// Checks a URL before the JSON proxy fetches it: `None` when it does not
/// parse, else whether its host is on `roblox.com` (a URL without a host is
/// refused).
pub fn proxy_allowed(url: &str) -> (r: Option<bool>)
    ensures
        r == proxy_allowed_spec(url@),
{
    proof {
        reveal_strlit("");
        assert(""@ =~= Seq::<char>::empty());
    }
    match parse_url(url) {
        None => None,
        Some(u) => Some(match &u.host {
            Some(h) => roblox_host(h.as_str()),
            None => roblox_host(""),
        }),
    }
}

} // verus!
