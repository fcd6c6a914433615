//! What a launch target means: a place id, a `placeId:jobId` shorthand, a
//! game URL, a private-server link, a share link or a short link; the
//! place-launcher URL it leads to; and the `roblox-player:` URI handed to
//! the game client.

use vstd::prelude::*;
use crate::text::{
    chars_of, owned, concat2, concat3, push_str, push_char, string_of_range, trim, trim_str,
    all_ascii_digits, all_ascii_digits_exec, has_prefix, starts_with_str, occurs_at, occurs_at_exec,
    decimal_run, decimal_run_end, space_run, space_run_end, is_decimal, decimal_char, is_space,
    lemma_decimal_run, lemma_space_run, split_on, lemma_split_on_concat, lemma_split_on_none,
};
use crate::version::{decimal, signed_decimal, push_decimal, i64_text};
use crate::web::{
    UrlParts, UrlView, url_parse, url_view, parse_url, query_last, query_value, pairs_view,
    is_short_link_host, short_link_host, percent_encode, url_encode,
};
use vstd::utf8::encode_utf8;

verus! {

pub const UNRECOGNISED_TARGET: &'static str = "Unrecognised input. Enter a place ID, game URL, or private server link.";
pub const NO_SHARE_CODE: &'static str = "Invalid share link -- no code found.";
pub const NO_PLACE_ID: &'static str = "Could not find a Place ID in the URL.";
pub const PRIVATE_SERVER_FAILED: &'static str = "Could not resolve private server access code. The link may be expired or you may not have permission.";
pub const SHARE_LINK_FAILED: &'static str = "Could not resolve share link. It may be expired or invalid.";

// ---------------------------------------------------------------------------
// launcher URLs
// ---------------------------------------------------------------------------

pub open spec fn game_url_spec(place_id: Seq<char>) -> Seq<char> {
    "https://assetgame.roblox.com/game/placelauncher.ashx?request=RequestGame&placeId="@ + place_id
        + "&isPlayTogetherGame=false"@
}

pub open spec fn job_url_spec(place_id: Seq<char>, job_id: Seq<char>) -> Seq<char> {
    "https://assetgame.roblox.com/game/PlaceLauncher.ashx?request=RequestGameJob&placeId="@
        + place_id + "&gameId="@ + job_id + "&isPlayTogetherGame=false"@
}

pub open spec fn private_url_spec(place_id: Seq<char>, access_code: Seq<char>, link_code: Seq<char>) -> Seq<char> {
    "https://assetgame.roblox.com/game/PlaceLauncher.ashx?request=RequestPrivateGame&placeId="@
        + place_id + "&accessCode="@ + access_code + "&linkCode="@ + link_code
}

pub open spec fn share_url_spec(place_id: Seq<char>, link_code: Seq<char>) -> Seq<char> {
    "https://assetgame.roblox.com/game/PlaceLauncher.ashx?request=RequestGameJob&placeId="@
        + place_id + "&isPlayTogetherGame=false&linkCode="@ + link_code
}

/// A URL's query: the text after its first `?`, up to any further `?`
/// (empty when it has none).
pub open spec fn query_text(url: Seq<char>) -> Seq<char> {
    let parts = split_on(url, '?');
    if parts.len() >= 2 {
        parts[1]
    } else {
        Seq::<char>::empty()
    }
}

/// The value of the first `name=value` field among `fields`.
pub open spec fn field_value(fields: Seq<Seq<char>>, name: Seq<char>) -> Option<Seq<char>>
    decreases fields.len(),
{
    if fields.len() == 0 {
        None
    } else if has_prefix(fields[0], name.push('=')) {
        Some(fields[0].subrange((name.len() + 1) as int, fields[0].len() as int))
    } else {
        field_value(fields.drop_first(), name)
    }
}

/// What reading query parameter `name` of a URL gives: the value of its
/// first `&`-separated `name=value` field.
pub open spec fn url_param(url: Seq<char>, name: Seq<char>) -> Option<Seq<char>> {
    field_value(split_on(query_text(url), '&'), name)
}

proof fn lemma_concat_free(a: Seq<char>, b: Seq<char>, c: char)
    requires
        !a.contains(c),
        !b.contains(c),
    ensures
        !(a + b).contains(c),
{
    if (a + b).contains(c) {
        let k = choose|k: int| 0 <= k < (a + b).len() && (a + b)[k] == c;
        if k < a.len() {
            assert(a[k] == c);
        } else {
            assert(b[k - a.len()] == c);
        }
    }
}

proof fn lemma_first_char_differs(s: Seq<char>, pat: Seq<char>)
    requires
        s.len() > 0,
        pat.len() > 0,
        s[0] != pat[0],
    ensures
        !has_prefix(s, pat),
{
    if has_prefix(s, pat) {
        assert(s.subrange(0, pat.len() as int)[0] == s[0]);
    }
}

/// Reading the private-server launcher URL's query back gives the place
/// id as `placeId`, the resolved access code as `accessCode` and the link
/// code as `linkCode` (for values that hold no `&` or `?`, as ids and codes
/// do).
pub proof fn law_private_url_reads_back(place_id: Seq<char>, access_code: Seq<char>, link_code: Seq<char>)
    requires
        !place_id.contains('&') && !place_id.contains('?'),
        !access_code.contains('&') && !access_code.contains('?'),
        !link_code.contains('&') && !link_code.contains('?'),
    ensures
        url_param(private_url_spec(place_id, access_code, link_code), "request"@) == Some("RequestPrivateGame"@),
        url_param(private_url_spec(place_id, access_code, link_code), "placeId"@) == Some(place_id),
        url_param(private_url_spec(place_id, access_code, link_code), "accessCode"@) == Some(access_code),
        url_param(private_url_spec(place_id, access_code, link_code), "linkCode"@) == Some(link_code),
{
    reveal_strlit("https://assetgame.roblox.com/game/PlaceLauncher.ashx?request=RequestPrivateGame&placeId=");
    reveal_strlit("&accessCode=");
    reveal_strlit("&linkCode=");
    reveal_strlit("https://assetgame.roblox.com/game/PlaceLauncher.ashx");
    reveal_strlit("request=RequestPrivateGame");
    reveal_strlit("placeId=");
    reveal_strlit("accessCode=");
    reveal_strlit("linkCode=");
    reveal_strlit("request");
    reveal_strlit("placeId");
    reveal_strlit("accessCode");
    reveal_strlit("linkCode");
    reveal_strlit("RequestPrivateGame");
    let base = "https://assetgame.roblox.com/game/PlaceLauncher.ashx"@;
    let f0 = "request=RequestPrivateGame"@;
    let f1 = "placeId="@ + place_id;
    let f2 = "accessCode="@ + access_code;
    let f3 = "linkCode="@ + link_code;
    let amp = seq!['&'];
    let q = f0 + amp + f1 + amp + f2 + amp + f3;
    let url = private_url_spec(place_id, access_code, link_code);
    assert("https://assetgame.roblox.com/game/PlaceLauncher.ashx?request=RequestPrivateGame&placeId="@
        =~= base + seq!['?'] + f0 + amp + "placeId="@);
    assert("&accessCode="@ =~= amp + "accessCode="@);
    assert("&linkCode="@ =~= amp + "linkCode="@);
    assert(url =~= base + seq!['?'] + q);
    assert forall|i: int| 0 <= i < base.len() implies base[i] != '?' by {}
    assert forall|i: int| 0 <= i < f0.len() implies f0[i] != '?' && f0[i] != '&' by {}
    assert forall|i: int| 0 <= i < "placeId="@.len() implies "placeId="@[i] != '?' && "placeId="@[i] != '&' by {}
    assert forall|i: int| 0 <= i < "accessCode="@.len() implies "accessCode="@[i] != '?' && "accessCode="@[i] != '&' by {}
    assert forall|i: int| 0 <= i < "linkCode="@.len() implies "linkCode="@[i] != '?' && "linkCode="@[i] != '&' by {}
    assert(!seq!['&'].contains('?'));
    lemma_concat_free("placeId="@, place_id, '&');
    lemma_concat_free("placeId="@, place_id, '?');
    lemma_concat_free("accessCode="@, access_code, '&');
    lemma_concat_free("accessCode="@, access_code, '?');
    lemma_concat_free("linkCode="@, link_code, '&');
    lemma_concat_free("linkCode="@, link_code, '?');
    lemma_concat_free(f0, amp, '?');
    lemma_concat_free(f0 + amp, f1, '?');
    lemma_concat_free(f0 + amp + f1, amp, '?');
    lemma_concat_free(f0 + amp + f1 + amp, f2, '?');
    lemma_concat_free(f0 + amp + f1 + amp + f2, amp, '?');
    lemma_concat_free(f0 + amp + f1 + amp + f2 + amp, f3, '?');
    lemma_split_on_concat(base, q, '?');
    lemma_split_on_none(base, '?');
    lemma_split_on_none(q, '?');
    assert(split_on(url, '?') =~= seq![base, q]);
    assert(query_text(url) == q);
    lemma_split_on_concat(f0 + amp + f1 + amp + f2, f3, '&');
    lemma_split_on_concat(f0 + amp + f1, f2, '&');
    lemma_split_on_concat(f0, f1, '&');
    lemma_split_on_none(f0, '&');
    lemma_split_on_none(f1, '&');
    lemma_split_on_none(f2, '&');
    lemma_split_on_none(f3, '&');
    let fields = split_on(q, '&');
    assert(fields =~= seq![f0, f1, f2, f3]);
    let fs1 = fields.drop_first();
    let fs2 = fs1.drop_first();
    let fs3 = fs2.drop_first();
    assert(fs1 =~= seq![f1, f2, f3]);
    assert(fs2 =~= seq![f2, f3]);
    assert(fs3 =~= seq![f3]);
    assert("request"@.push('=') =~= f0.subrange(0, 8));
    assert(f0.subrange(8, f0.len() as int) =~= "RequestPrivateGame"@);
    assert("placeId"@.push('=') =~= f1.subrange(0, 8));
    assert(f1.subrange(8, f1.len() as int) =~= place_id);
    assert("accessCode"@.push('=') =~= f2.subrange(0, 11));
    assert(f2.subrange(11, f2.len() as int) =~= access_code);
    assert("linkCode"@.push('=') =~= f3.subrange(0, 9));
    assert(f3.subrange(9, f3.len() as int) =~= link_code);
    assert(f0[0] == 'r' && f1[0] == 'p' && f2[0] == 'a');
    lemma_first_char_differs(f0, "placeId"@.push('='));
    lemma_first_char_differs(f0, "accessCode"@.push('='));
    lemma_first_char_differs(f1, "accessCode"@.push('='));
    lemma_first_char_differs(f0, "linkCode"@.push('='));
    lemma_first_char_differs(f1, "linkCode"@.push('='));
    lemma_first_char_differs(f2, "linkCode"@.push('='));
    assert(fields[0] == f0 && fs1[0] == f1 && fs2[0] == f2 && fs3[0] == f3);
    assert(field_value(fs1, "placeId"@) == Some(place_id));
    assert(field_value(fields, "placeId"@) == field_value(fs1, "placeId"@));
    assert(field_value(fs2, "accessCode"@) == Some(access_code));
    assert(field_value(fs1, "accessCode"@) == field_value(fs2, "accessCode"@));
    assert(field_value(fields, "accessCode"@) == field_value(fs1, "accessCode"@));
    assert(field_value(fs3, "linkCode"@) == Some(link_code));
    assert(field_value(fs2, "linkCode"@) == field_value(fs3, "linkCode"@));
    assert(field_value(fs1, "linkCode"@) == field_value(fs2, "linkCode"@));
    assert(field_value(fields, "linkCode"@) == field_value(fs1, "linkCode"@));
}

/// Reading the launcher URLs for a running server and for a resolved share
/// link back gives their parts in place: the place id as `placeId`, the
/// server's job id as `gameId`, the share link's code as `linkCode` (for
/// values that hold no `&` or `?`).
pub proof fn law_job_and_share_urls_read_back(place_id: Seq<char>, job_id: Seq<char>, link_code: Seq<char>)
    requires
        !place_id.contains('&') && !place_id.contains('?'),
        !job_id.contains('&') && !job_id.contains('?'),
        !link_code.contains('&') && !link_code.contains('?'),
    ensures
        url_param(job_url_spec(place_id, job_id), "placeId"@) == Some(place_id),
        url_param(job_url_spec(place_id, job_id), "gameId"@) == Some(job_id),
        url_param(share_url_spec(place_id, link_code), "placeId"@) == Some(place_id),
        url_param(share_url_spec(place_id, link_code), "linkCode"@) == Some(link_code),
{
    reveal_strlit("https://assetgame.roblox.com/game/PlaceLauncher.ashx?request=RequestGameJob&placeId=");
    reveal_strlit("&gameId=");
    reveal_strlit("&isPlayTogetherGame=false");
    reveal_strlit("&isPlayTogetherGame=false&linkCode=");
    reveal_strlit("https://assetgame.roblox.com/game/PlaceLauncher.ashx");
    reveal_strlit("request=RequestGameJob");
    reveal_strlit("placeId=");
    reveal_strlit("gameId=");
    reveal_strlit("isPlayTogetherGame=false");
    reveal_strlit("linkCode=");
    reveal_strlit("placeId");
    reveal_strlit("gameId");
    reveal_strlit("linkCode");
    let base = "https://assetgame.roblox.com/game/PlaceLauncher.ashx"@;
    let amp = seq!['&'];
    let f0 = "request=RequestGameJob"@;
    let f1 = "placeId="@ + place_id;
    let g2 = "gameId="@ + job_id;
    let play = "isPlayTogetherGame=false"@;
    let l3 = "linkCode="@ + link_code;
    assert("https://assetgame.roblox.com/game/PlaceLauncher.ashx?request=RequestGameJob&placeId="@
        =~= base + seq!['?'] + f0 + amp + "placeId="@);
    assert("&gameId="@ =~= amp + "gameId="@);
    assert("&isPlayTogetherGame=false"@ =~= amp + play);
    assert("&isPlayTogetherGame=false&linkCode="@ =~= amp + play + amp + "linkCode="@);
    let qj = f0 + amp + f1 + amp + g2 + amp + play;
    let qs = f0 + amp + f1 + amp + play + amp + l3;
    let uj = job_url_spec(place_id, job_id);
    let us = share_url_spec(place_id, link_code);
    assert(uj =~= base + seq!['?'] + qj);
    assert(us =~= base + seq!['?'] + qs);
    assert forall|i: int| 0 <= i < base.len() implies base[i] != '?' by {}
    assert forall|i: int| 0 <= i < f0.len() implies f0[i] != '?' && f0[i] != '&' by {}
    assert forall|i: int| 0 <= i < play.len() implies play[i] != '?' && play[i] != '&' by {}
    assert forall|i: int| 0 <= i < "placeId="@.len() implies "placeId="@[i] != '?' && "placeId="@[i] != '&' by {}
    assert forall|i: int| 0 <= i < "gameId="@.len() implies "gameId="@[i] != '?' && "gameId="@[i] != '&' by {}
    assert forall|i: int| 0 <= i < "linkCode="@.len() implies "linkCode="@[i] != '?' && "linkCode="@[i] != '&' by {}
    assert(!amp.contains('?'));
    lemma_concat_free("placeId="@, place_id, '&');
    lemma_concat_free("placeId="@, place_id, '?');
    lemma_concat_free("gameId="@, job_id, '&');
    lemma_concat_free("gameId="@, job_id, '?');
    lemma_concat_free("linkCode="@, link_code, '&');
    lemma_concat_free("linkCode="@, link_code, '?');
    lemma_concat_free(f0, amp, '?');
    lemma_concat_free(f0 + amp, f1, '?');
    lemma_concat_free(f0 + amp + f1, amp, '?');
    lemma_concat_free(f0 + amp + f1 + amp, g2, '?');
    lemma_concat_free(f0 + amp + f1 + amp + g2, amp, '?');
    lemma_concat_free(f0 + amp + f1 + amp + g2 + amp, play, '?');
    lemma_concat_free(f0 + amp + f1 + amp, play, '?');
    lemma_concat_free(f0 + amp + f1 + amp + play, amp, '?');
    lemma_concat_free(f0 + amp + f1 + amp + play + amp, l3, '?');
    lemma_split_on_none(base, '?');
    lemma_split_on_concat(base, qj, '?');
    lemma_split_on_none(qj, '?');
    lemma_split_on_concat(base, qs, '?');
    lemma_split_on_none(qs, '?');
    assert(split_on(uj, '?') =~= seq![base, qj]);
    assert(split_on(us, '?') =~= seq![base, qs]);
    lemma_split_on_none(f0, '&');
    lemma_split_on_none(f1, '&');
    lemma_split_on_none(g2, '&');
    lemma_split_on_none(play, '&');
    lemma_split_on_none(l3, '&');
    lemma_split_on_concat(f0, f1, '&');
    lemma_split_on_concat(f0 + amp + f1, g2, '&');
    lemma_split_on_concat(f0 + amp + f1 + amp + g2, play, '&');
    lemma_split_on_concat(f0 + amp + f1, play, '&');
    lemma_split_on_concat(f0 + amp + f1 + amp + play, l3, '&');
    let fj = split_on(qj, '&');
    let fsh = split_on(qs, '&');
    assert(fj =~= seq![f0, f1, g2, play]);
    assert(fsh =~= seq![f0, f1, play, l3]);
    assert(f0[0] == 'r' && f1[0] == 'p' && play[0] == 'i');
    lemma_first_char_differs(f0, "placeId"@.push('='));
    lemma_first_char_differs(f0, "gameId"@.push('='));
    lemma_first_char_differs(f1, "gameId"@.push('='));
    lemma_first_char_differs(f0, "linkCode"@.push('='));
    lemma_first_char_differs(f1, "linkCode"@.push('='));
    lemma_first_char_differs(play, "linkCode"@.push('='));
    assert("placeId"@.push('=') =~= f1.subrange(0, 8));
    assert(f1.subrange(8, f1.len() as int) =~= place_id);
    assert("gameId"@.push('=') =~= g2.subrange(0, 7));
    assert(g2.subrange(7, g2.len() as int) =~= job_id);
    assert("linkCode"@.push('=') =~= l3.subrange(0, 9));
    assert(l3.subrange(9, l3.len() as int) =~= link_code);
    let j1 = fj.drop_first();
    let j2 = j1.drop_first();
    let s1 = fsh.drop_first();
    let s2 = s1.drop_first();
    let s3 = s2.drop_first();
    assert(j1 =~= seq![f1, g2, play] && j2 =~= seq![g2, play]);
    assert(s1 =~= seq![f1, play, l3] && s2 =~= seq![play, l3] && s3 =~= seq![l3]);
    assert(field_value(j1, "placeId"@) == Some(place_id));
    assert(field_value(fj, "placeId"@) == field_value(j1, "placeId"@));
    assert(field_value(j2, "gameId"@) == Some(job_id));
    assert(field_value(j1, "gameId"@) == field_value(j2, "gameId"@));
    assert(field_value(fj, "gameId"@) == field_value(j1, "gameId"@));
    assert(field_value(s1, "placeId"@) == Some(place_id));
    assert(field_value(fsh, "placeId"@) == field_value(s1, "placeId"@));
    assert(field_value(s3, "linkCode"@) == Some(link_code));
    assert(field_value(s2, "linkCode"@) == field_value(s3, "linkCode"@));
    assert(field_value(s1, "linkCode"@) == field_value(s2, "linkCode"@));
    assert(field_value(fsh, "linkCode"@) == field_value(s1, "linkCode"@));
}

/// Launcher URL joining a public game.
pub fn game_launcher_url(place_id: &str) -> (r: String)
    ensures
        r@ == game_url_spec(place_id@),
{
    concat3(
        "https://assetgame.roblox.com/game/placelauncher.ashx?request=RequestGame&placeId=",
        place_id,
        "&isPlayTogetherGame=false",
    )
}

/// Launcher URL joining one running server instance.
pub fn job_launcher_url(place_id: &str, job_id: &str) -> (r: String)
    ensures
        r@ == job_url_spec(place_id@, job_id@),
{
    let mut r = concat3(
        "https://assetgame.roblox.com/game/PlaceLauncher.ashx?request=RequestGameJob&placeId=",
        place_id,
        "&gameId=",
    );
    push_str(&mut r, job_id);
    push_str(&mut r, "&isPlayTogetherGame=false");
    r
}

/// Launcher URL joining a private server with its resolved access code.
pub fn private_launcher_url(place_id: &str, access_code: &str, link_code: &str) -> (r: String)
    ensures
        r@ == private_url_spec(place_id@, access_code@, link_code@),
{
    let mut r = concat3(
        "https://assetgame.roblox.com/game/PlaceLauncher.ashx?request=RequestPrivateGame&placeId=",
        place_id,
        "&accessCode=",
    );
    push_str(&mut r, access_code);
    push_str(&mut r, "&linkCode=");
    push_str(&mut r, link_code);
    r
}

/// Launcher URL joining the server a resolved share link points at.
pub fn share_launcher_url(place_id: &str, link_code: &str) -> (r: String)
    ensures
        r@ == share_url_spec(place_id@, link_code@),
{
    let mut r = concat3(
        "https://assetgame.roblox.com/game/PlaceLauncher.ashx?request=RequestGameJob&placeId=",
        place_id,
        "&isPlayTogetherGame=false&linkCode=",
    );
    push_str(&mut r, link_code);
    r
}

// ---------------------------------------------------------------------------
// the `placeId:jobId` shorthand
// ---------------------------------------------------------------------------

pub open spec fn is_hex_digit(c: char) -> bool {
    ||| '0' <= c <= '9'
    ||| 'a' <= c <= 'f'
    ||| 'A' <= c <= 'F'
}

/// A server GUID: 8-4-4-4-12 hexadecimal digits.
pub open spec fn is_guid(g: Seq<char>) -> bool {
    &&& g.len() == 36
    &&& forall|k: int|
        0 <= k < 36 ==> if k == 8 || k == 13 || k == 18 || k == 23 {
            #[trigger] g[k] == '-'
        } else {
            is_hex_digit(g[k])
        }
}

/// `placeId:jobId` or `placeId,jobId` (spaces allowed after the separator),
/// the whole text: the place id and the job id.
pub open spec fn job_shorthand_spec(t: Seq<char>) -> Option<(Seq<char>, Seq<char>)> {
    let k = decimal_run(t, 0);
    if k > 0 && k < t.len() && (t[k as int] == ',' || t[k as int] == ':') && t.len() >= k + 37 && space_run(
        t,
        k + 1int,
    ) >= t.len() - 36 - (k + 1) && is_guid(t.subrange(t.len() - 36, t.len() as int)) {
        Some((t.subrange(0, k as int), t.subrange(t.len() - 36, t.len() as int)))
    } else {
        None
    }
}

fn guid_at(t: &Vec<char>, start: usize) -> (r: bool)
    requires
        start + 36 == t.len(),
    ensures
        r == is_guid(t@.subrange(start as int, t@.len() as int)),
{
    let ghost g = t@.subrange(start as int, t@.len() as int);
    let mut k: usize = 0;
    while k < 36
        invariant
            start + 36 == t.len(),
            g == t@.subrange(start as int, t@.len() as int),
            k <= 36,
            forall|j: int|
                0 <= j < k ==> if j == 8 || j == 13 || j == 18 || j == 23 {
                    #[trigger] g[j] == '-'
                } else {
                    is_hex_digit(g[j])
                },
        decreases 36 - k,
    {
        let c = t[start + k];
        assert(g[k as int] == c);
        let ok = if k == 8 || k == 13 || k == 18 || k == 23 {
            c == '-'
        } else {
            ('0' <= c && c <= '9') || ('a' <= c && c <= 'f') || ('A' <= c && c <= 'F')
        };
        if !ok {
            return false;
        }
        k = k + 1;
    }
    true
}

/// Reads the `placeId:jobId` shorthand.
pub fn job_shorthand(t: &str) -> (r: Option<(String, String)>)
    ensures
        r matches Some(p) ==> job_shorthand_spec(t@) == Some((p.0@, p.1@)),
        r is None ==> job_shorthand_spec(t@) is None,
{
    let v = chars_of(t);
    let k = decimal_run_end(&v, 0);
    if k == 0 || k >= v.len() || (v[k] != ',' && v[k] != ':') || v.len() - k < 37 {
        return None;
    }
    let e = space_run_end(&v, k + 1);
    if e < v.len() - 36 {
        return None;
    }
    if !guid_at(&v, v.len() - 36) {
        return None;
    }
    Some((string_of_range(&v, 0, k), string_of_range(&v, v.len() - 36, v.len())))
}

// ---------------------------------------------------------------------------
// place ids in a URL path
// ---------------------------------------------------------------------------

/// The first `/games/<digits>` in `p` at or after `i`: the digits.
pub open spec fn games_id_from(p: Seq<char>, i: int) -> Option<Seq<char>>
    decreases p.len() - i,
{
    if i < 0 || i >= p.len() {
        None
    } else if occurs_at(p, i, "/games/"@) && decimal_run(p, i + 7) > 0 {
        Some(p.subrange(i + 7, i + 7 + decimal_run(p, i + 7)))
    } else {
        games_id_from(p, i + 1)
    }
}

/// The first `/<digits>` in `p` at or after `i`: the digits.
pub open spec fn slash_id_from(p: Seq<char>, i: int) -> Option<Seq<char>>
    decreases p.len() - i,
{
    if i < 0 || i >= p.len() {
        None
    } else if p[i] == '/' && decimal_run(p, i + 1) > 0 {
        Some(p.subrange(i + 1, i + 1 + decimal_run(p, i + 1)))
    } else {
        slash_id_from(p, i + 1)
    }
}

/// The place id a launch URL names: the first `/games/<digits>` of its path,
/// else the first `/<digits>` of its path, else its last `placeId` query
/// value.
pub open spec fn url_place_id(u: UrlView) -> Option<Seq<char>> {
    match games_id_from(u.1, 0) {
        Some(id) => Some(id),
        None => match slash_id_from(u.1, 0) {
            Some(id) => Some(id),
            None => query_last(u.2, "placeId"@),
        },
    }
}

fn games_id(p: &Vec<char>) -> (r: Option<String>)
    ensures
        r matches Some(s) ==> games_id_from(p@, 0) == Some(s@),
        r is None ==> games_id_from(p@, 0) is None,
{
    let pat = chars_of("/games/");
    proof {
        reveal_strlit("/games/");
    }
    let mut i: usize = 0;
    while i < p.len()
        invariant
            i <= p.len(),
            pat@ == "/games/"@,
            pat@.len() == 7,
            games_id_from(p@, 0) == games_id_from(p@, i as int),
        decreases p.len() - i,
    {
        if occurs_at_exec(p, i, &pat) {
            let e = decimal_run_end(p, i + 7);
            if e > i + 7 {
                return Some(string_of_range(p, i + 7, e));
            }
        }
        i = i + 1;
    }
    None
}

fn slash_id(p: &Vec<char>) -> (r: Option<String>)
    ensures
        r matches Some(s) ==> slash_id_from(p@, 0) == Some(s@),
        r is None ==> slash_id_from(p@, 0) is None,
{
    let mut i: usize = 0;
    while i < p.len()
        invariant
            i <= p.len(),
            slash_id_from(p@, 0) == slash_id_from(p@, i as int),
        decreases p.len() - i,
    {
        if p[i] == '/' {
            let e = decimal_run_end(p, i + 1);
            if e > i + 1 {
                return Some(string_of_range(p, i + 1, e));
            }
        }
        i = i + 1;
    }
    None
}

fn place_id_of(u: &UrlParts) -> (r: Option<String>)
    ensures
        r matches Some(s) ==> url_place_id(url_view(*u)) == Some(s@),
        r is None ==> url_place_id(url_view(*u)) is None,
{
    let p = chars_of(u.path.as_str());
    match games_id(&p) {
        Some(id) => Some(id),
        None => match slash_id(&p) {
            Some(id) => Some(id),
            None => {
                proof {
                    reveal_strlit("placeId");
                }
                query_value(u, "placeId")
            },
        },
    }
}

// ---------------------------------------------------------------------------
// plans
// ---------------------------------------------------------------------------

/// What a launch target asks for next.
pub enum LaunchPlan {
    /// No target: open the app home.
    Home,
    /// Launch with this place-launcher URL.
    Launcher(String),
    /// A short link: follow its redirect, then plan the URL it leads to.
    FollowRedirect(String),
    /// A private-server link: resolve the access code, then launch.
    PrivateServer { place_id: String, link_code: String },
    /// A share link: resolve it, then launch.
    ShareLink { code: String },
    /// Nothing can be launched: the message to show.
    Failed(String),
}

/// Plain-value form of a plan.
pub enum PlanView {
    Home,
    Launcher(Seq<char>),
    FollowRedirect(Seq<char>),
    PrivateServer(Seq<char>, Seq<char>),
    ShareLink(Seq<char>),
    Failed(Seq<char>),
}

pub open spec fn plan_view(p: LaunchPlan) -> PlanView {
    match p {
        LaunchPlan::Home => PlanView::Home,
        LaunchPlan::Launcher(u) => PlanView::Launcher(u@),
        LaunchPlan::FollowRedirect(u) => PlanView::FollowRedirect(u@),
        LaunchPlan::PrivateServer { place_id, link_code } => PlanView::PrivateServer(place_id@, link_code@),
        LaunchPlan::ShareLink { code } => PlanView::ShareLink(code@),
        LaunchPlan::Failed(m) => PlanView::Failed(m@),
    }
}

/// The plan for a URL: a job id with a place id joins that server; a
/// private-server code with a place id needs the access code; a `/share`
/// path, or a `code` with a `type`, is a share link; a place id alone joins
/// the game.
pub open spec fn plan_url_spec(raw: Seq<char>) -> PlanView {
    match url_parse(raw) {
        None => PlanView::Failed(UNRECOGNISED_TARGET@),
        Some(u) => {
            let private_code = query_last(u.2, "privateServerLinkCode"@);
            let share_code = query_last(u.2, "code"@);
            let share_type = query_last(u.2, "type"@);
            let job_id = match query_last(u.2, "jobId"@) {
                Some(j) => Some(j),
                None => query_last(u.2, "gameInstanceId"@),
            };
            let place_id = url_place_id(u);
            if job_id is Some && place_id is Some {
                PlanView::Launcher(job_url_spec(place_id->0, job_id->0))
            } else if private_code is Some && place_id is Some {
                PlanView::PrivateServer(place_id->0, private_code->0)
            } else if u.1 == "/share"@ || (share_code is Some && share_type is Some) {
                match share_code {
                    None => PlanView::Failed(NO_SHARE_CODE@),
                    Some(c) => PlanView::ShareLink(c),
                }
            } else if place_id is Some {
                PlanView::Launcher(game_url_spec(place_id->0))
            } else {
                PlanView::Failed(NO_PLACE_ID@)
            }
        },
    }
}

/// The plan for a launch target as the user typed it (trimmed first).
pub open spec fn plan_target_spec(target: Seq<char>) -> PlanView {
    let t = trim(target);
    if t.len() == 0 {
        PlanView::Home
    } else if let Some((place_id, job_id)) = job_shorthand_spec(t) {
        PlanView::Launcher(job_url_spec(place_id, job_id))
    } else if all_ascii_digits(t) {
        PlanView::Launcher(game_url_spec(t))
    } else {
        let raw = if has_prefix(t, "http"@) {
            t
        } else {
            "https://"@ + t
        };
        match url_parse(raw) {
            Some(u) => if is_short_link_host(
                match u.0 {
                    Some(h) => h,
                    None => Seq::<char>::empty(),
                },
            ) {
                PlanView::FollowRedirect(raw)
            } else {
                plan_url_spec(raw)
            },
            None => plan_url_spec(raw),
        }
    }
}

/// Plans a URL (after any short-link redirect has been followed).
pub fn plan_url(raw: &str) -> (r: LaunchPlan)
    ensures
        plan_view(r) == plan_url_spec(raw@),
{
    proof {
        reveal_strlit("privateServerLinkCode");
        reveal_strlit("code");
        reveal_strlit("type");
        reveal_strlit("jobId");
        reveal_strlit("gameInstanceId");
        reveal_strlit("/share");
    }
    let u = match parse_url(raw) {
        None => return LaunchPlan::Failed(owned(UNRECOGNISED_TARGET)),
        Some(u) => u,
    };
    let private_code = query_value(&u, "privateServerLinkCode");
    let share_code = query_value(&u, "code");
    let share_type = query_value(&u, "type");
    let job_id = match query_value(&u, "jobId") {
        Some(j) => Some(j),
        None => query_value(&u, "gameInstanceId"),
    };
    let place_id = place_id_of(&u);
    match (job_id, place_id) {
        (Some(j), Some(p)) => {
            return LaunchPlan::Launcher(job_launcher_url(p.as_str(), j.as_str()));
        },
        (_, place_id) => {
            match (private_code, place_id) {
                (Some(c), Some(p)) => {
                    return LaunchPlan::PrivateServer { place_id: p, link_code: c };
                },
                (_, place_id) => {
                    let is_share_path = crate::json::str_eq(u.path.as_str(), "/share");
                    if is_share_path || (share_code.is_some() && share_type.is_some()) {
                        return match share_code {
                            None => LaunchPlan::Failed(owned(NO_SHARE_CODE)),
                            Some(c) => LaunchPlan::ShareLink { code: c },
                        };
                    }
                    match place_id {
                        Some(p) => LaunchPlan::Launcher(game_launcher_url(p.as_str())),
                        None => LaunchPlan::Failed(owned(NO_PLACE_ID)),
                    }
                },
            }
        },
    }
}

/// Plans a launch target: empty means home; the shorthand or a bare place id
/// give the launcher URL at once; anything else is read as a URL (with
/// `https://` put in front unless it starts with `http`).
pub fn plan_target(target: &str) -> (r: LaunchPlan)
    ensures
        plan_view(r) == plan_target_spec(target@),
{
    let t = trim_str(target);
    let tv = chars_of(t.as_str());
    if tv.len() == 0 {
        return LaunchPlan::Home;
    }
    match job_shorthand(t.as_str()) {
        Some((p, j)) => {
            return LaunchPlan::Launcher(job_launcher_url(p.as_str(), j.as_str()));
        },
        None => {},
    }
    if all_ascii_digits_exec(&tv) {
        return LaunchPlan::Launcher(game_launcher_url(t.as_str()));
    }
    proof {
        reveal_strlit("");
    }
    let raw = if starts_with_str(t.as_str(), "http") {
        t
    } else {
        concat2("https://", t.as_str())
    };
    match parse_url(raw.as_str()) {
        Some(u) => {
            let short = match &u.host {
                Some(h) => short_link_host(h.as_str()),
                None => {
                    assert(""@ =~= Seq::<char>::empty());
                    short_link_host("")
                },
            };
            if short {
                LaunchPlan::FollowRedirect(raw)
            } else {
                plan_url(raw.as_str())
            }
        },
        None => plan_url(raw.as_str()),
    }
}

// ---------------------------------------------------------------------------
// the game-client URI
// ---------------------------------------------------------------------------

/// The `roblox-player:` URI: with a launcher URL it plays that place,
/// percent-encoded; without one it opens the app home.
pub open spec fn roblox_uri_spec(ticket: Seq<char>, launch_time: i64, launcher_url: Seq<char>, browser_id: u64) -> Seq<char> {
    if launcher_url.len() > 0 {
        "roblox-player:1+launchmode:play+gameinfo:"@ + ticket + "+launchtime:"@ + signed_decimal(
            launch_time as int,
        ) + "+placelauncherurl:"@ + percent_encode(encode_utf8(launcher_url)) + "+browsertrackerid:"@
            + decimal(browser_id as nat) + "+robloxLocale:en_us+gameLocale:en_us+channel:+LaunchExp:InApp"@
    } else {
        "roblox-player:1+launchmode:app+gameinfo:"@ + ticket + "+launchtime:"@ + signed_decimal(
            launch_time as int,
        ) + "+browsertrackerid:"@ + decimal(browser_id as nat) + "+robloxLocale:en_us+gameLocale:en_us"@
    }
}

pub fn roblox_uri(ticket: &str, launch_time: i64, launcher_url: &str, browser_id: u64) -> (r: String)
    ensures
        r@ == roblox_uri_spec(ticket@, launch_time, launcher_url@, browser_id),
{
    let time = i64_text(launch_time);
    let mut r: String;
    if !launcher_url.is_empty() {
        r = concat2("roblox-player:1+launchmode:play+gameinfo:", ticket);
        push_str(&mut r, "+launchtime:");
        push_str(&mut r, time.as_str());
        push_str(&mut r, "+placelauncherurl:");
        let enc = url_encode(launcher_url);
        push_str(&mut r, enc.as_str());
        push_str(&mut r, "+browsertrackerid:");
        push_decimal(&mut r, browser_id);
        push_str(&mut r, "+robloxLocale:en_us+gameLocale:en_us+channel:+LaunchExp:InApp");
    } else {
        r = concat2("roblox-player:1+launchmode:app+gameinfo:", ticket);
        push_str(&mut r, "+launchtime:");
        push_str(&mut r, time.as_str());
        push_str(&mut r, "+browsertrackerid:");
        push_decimal(&mut r, browser_id);
        push_str(&mut r, "+robloxLocale:en_us+gameLocale:en_us");
    }
    r
}

/// The browser tracker id drawn from a random number: 13 digits, from
/// 1_000_000_000_000 to 9_999_999_999_999.
pub fn browser_tracker_id(random: u64) -> (r: u64)
    ensures
        r == random % 9_000_000_000_000 + 1_000_000_000_000,
        1_000_000_000_000 <= r < 10_000_000_000_000,
{
    random % 9_000_000_000_000 + 1_000_000_000_000
}

/// Draws a number with `rand::random::<u64>()`. Nothing is promised of it.
#[verifier::external_body]
fn random_u64() -> (r: u64) {
    rand::random::<u64>()
}

/// A fresh browser tracker id for a launch: 13 digits, drawn at random.
pub fn new_browser_tracker_id() -> (r: u64)
    ensures
        1_000_000_000_000 <= r < 10_000_000_000_000,
{
    browser_tracker_id(random_u64())
}

} // verus!
