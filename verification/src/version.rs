//! Release tags: strict `vMAJOR.MINOR.PATCH` parsing, decimal printing, and
//! the choice of the newest published tag against the running build.

use vstd::prelude::*;
use crate::json::{Json, json_get, json_str, get_str};
use crate::text::{push_char, concat2, chars_of, string_of_range, split_chars, split_on, parse_unsigned, parse_unsigned_bounded, all_ascii_digits, is_ascii_digit, digits_value, digit_value, lemma_split_on_concat, lemma_split_on_none};

verus! {

// ---------------------------------------------------------------------------
// decimal printing
// ---------------------------------------------------------------------------

pub open spec fn digit_char(d: nat) -> char {
    ((d + 48) as u32) as char
}

/// The decimal digits of `n`, most significant first, without leading zeros.
pub open spec fn decimal(n: nat) -> Seq<char>
    decreases n,
{
    if n < 10 {
        seq![digit_char(n)]
    } else {
        decimal(n / 10).push(digit_char(n % 10))
    }
}

/// How `Display` prints a signed integer.
pub open spec fn signed_decimal(n: int) -> Seq<char> {
    if n < 0 {
        seq!['-'] + decimal((-n) as nat)
    } else {
        decimal(n as nat)
    }
}

/// Appends the decimal digits of `n`.
pub fn push_decimal(out: &mut String, n: u64)
    ensures
        final(out)@ == old(out)@ + decimal(n as nat),
    decreases n,
{
    if n >= 10 {
        push_decimal(out, n / 10);
    }
    let d: u8 = (n % 10) as u8;
    let b: u8 = d + 48;
    let c = b as char;
    assert(c == digit_char((n % 10) as nat));
    push_char(out, c);
    proof {
        if n >= 10 {
            assert(decimal(n as nat) == decimal((n / 10) as nat).push(c));
        } else {
            assert(decimal(n as nat) == seq![c]);
        }
        assert(final(out)@ =~= old(out)@ + decimal(n as nat)) by {
            if n >= 10 {
            } else {
            }
        }
    }
}

/// `n.to_string()`.
pub fn u64_text(n: u64) -> (r: String)
    ensures
        r@ == decimal(n as nat),
{
    let mut r = String::new();
    push_decimal(&mut r, n);
    assert(r@ =~= decimal(n as nat));
    r
}

/// `n.to_string()` for a signed integer.
pub fn i64_text(n: i64) -> (r: String)
    ensures
        r@ == signed_decimal(n as int),
{
    let mut r = String::new();
    if n < 0 {
        push_char(&mut r, '-');
        let m: u64 = ((-(n + 1)) as u64) + 1;
        push_decimal(&mut r, m);
        assert(r@ =~= signed_decimal(n as int));
    } else {
        push_decimal(&mut r, n as u64);
        assert(r@ =~= signed_decimal(n as int));
    }
    r
}

pub proof fn lemma_decimal_digits(n: nat)
    ensures
        decimal(n).len() > 0,
        all_ascii_digits(decimal(n)),
        digits_value(decimal(n)) == n,
    decreases n,
{
    let m = (n % 10) as u32;
    assert(((m + 48) as u32) as char as u32 == m + 48);
    assert('0' as u32 == 48);
    assert(digit_value(digit_char(m as nat)) == m);
    let d = decimal(n);
    if n < 10 {
        assert(d.drop_last() =~= Seq::<char>::empty());
        assert(digits_value(d) == digits_value(d.drop_last()) * 10 + digit_value(d.last()));
    }
    if n >= 10 {
        lemma_decimal_digits(n / 10);
        let d = decimal(n);
        assert(d.drop_last() =~= decimal(n / 10));
        assert(d.last() == digit_char((n % 10) as nat));
        assert(digits_value(d) == digits_value(d.drop_last()) * 10 + digit_value(d.last()));
        assert((n / 10) * 10 + n % 10 == n);
        assert forall|i: int| 0 <= i < d.len() implies is_ascii_digit(#[trigger] d[i]) by {
            if i < d.len() - 1 {
                assert(d[i] == decimal(n / 10)[i]);
            }
        }
    }
}

// ---------------------------------------------------------------------------
// tags
// ---------------------------------------------------------------------------

/// What `str::parse::<u32>()` gives back.
pub open spec fn parse_u32_spec(s: Seq<char>) -> Option<u32> {
    match parse_unsigned(s) {
        Some(v) => if v <= u32::MAX {
            Some(v as u32)
        } else {
            None
        },
        None => None,
    }
}

pub fn parse_u32_str(s: &Vec<char>) -> (r: Option<u32>)
    ensures
        r == parse_u32_spec(s@),
{
    match parse_unsigned_bounded(s, u32::MAX as u64) {
        Some(v) => Some(v as u32),
        None => None,
    }
}

/// A release version `(major, minor, patch)`.
pub type Semver = (u32, u32, u32);

/// A tag counts only as `v` + exactly three dot-separated unsigned numbers.
pub open spec fn semver_spec(tag: Seq<char>) -> Option<Semver> {
    if tag.len() > 0 && tag[0] == 'v' {
        let parts = split_on(tag.drop_first(), '.');
        if parts.len() == 3 {
            match (parse_u32_spec(parts[0]), parse_u32_spec(parts[1]), parse_u32_spec(parts[2])) {
                (Some(a), Some(b), Some(c)) => Some((a, b, c)),
                _ => None,
            }
        } else {
            None
        }
    } else {
        None
    }
}

/// Parses a strict `vMAJOR.MINOR.PATCH` release tag; anything else (a missing
/// `v`, letter suffixes, a fourth component) is not a release.
pub fn parse_semver(tag: &str) -> (r: Option<Semver>)
    ensures
        r == semver_spec(tag@),
{
    let v = chars_of(tag);
    if v.len() == 0 || v[0] != 'v' {
        return None;
    }
    let rest = string_of_range(&v, 1, v.len());
    assert(rest@ =~= tag@.drop_first());
    let rv = chars_of(rest.as_str());
    let parts = split_chars(&rv, '.');
    if parts.len() != 3 {
        return None;
    }
    let a = parse_u32_str(&parts[0]);
    let b = parse_u32_str(&parts[1]);
    let c = parse_u32_str(&parts[2]);
    match (a, b, c) {
        (Some(a), Some(b), Some(c)) => Some((a, b, c)),
        _ => None,
    }
}

/// `a < b` in release order (major, then minor, then patch).
pub open spec fn semver_lt(a: Semver, b: Semver) -> bool {
    ||| a.0 < b.0
    ||| a.0 == b.0 && a.1 < b.1
    ||| a.0 == b.0 && a.1 == b.1 && a.2 < b.2
}

pub fn semver_less(a: Semver, b: Semver) -> (r: bool)
    ensures
        r == semver_lt(a, b),
{
    a.0 < b.0 || (a.0 == b.0 && a.1 < b.1) || (a.0 == b.0 && a.1 == b.1 && a.2 < b.2)
}

/// Release order is the lexicographic order on (major, minor, patch): a
/// larger major version is newer whatever the rest; with equal majors a
/// larger minor is newer; with both equal a larger patch is newer. It is a
/// strict total order: never both ways, never a version against itself,
/// transitive, and any two different versions are ordered one way.
pub proof fn law_release_order(a: Semver, b: Semver, c: Semver)
    ensures
        a.0 < b.0 ==> semver_lt(a, b),
        a.0 == b.0 && a.1 < b.1 ==> semver_lt(a, b),
        a.0 == b.0 && a.1 == b.1 && a.2 < b.2 ==> semver_lt(a, b),
        semver_lt(a, b) ==> !semver_lt(b, a),
        !semver_lt(a, a),
        semver_lt(a, b) && semver_lt(b, c) ==> semver_lt(a, c),
        a != b ==> semver_lt(a, b) || semver_lt(b, a),
{
}

/// The version a tag object (`{"name": ...}`) names, if its name is a release tag.
pub open spec fn tag_version(t: Json) -> Option<Semver> {
    match json_str(json_get(t, seq!['n', 'a', 'm', 'e'])) {
        Some(n) => semver_spec(n),
        None => None,
    }
}

/// The newest release named among `tags` (the maximum in release order).
pub open spec fn latest_version(tags: Seq<Json>) -> Option<Semver>
    decreases tags.len(),
{
    if tags.len() == 0 {
        None
    } else {
        let before = latest_version(tags.drop_last());
        match (before, tag_version(tags.last())) {
            (None, v) => v,
            (Some(b), None) => Some(b),
            (Some(b), Some(v)) => if semver_lt(v, b) {
                Some(b)
            } else {
                Some(v)
            },
        }
    }
}

/// The newest release reported is one of the listed release tags and is
/// at least as new as every one of them; there is one exactly when some tag
/// is a release.
pub proof fn law_latest_is_newest(tags: Seq<Json>)
    ensures
        latest_version(tags) is None <==> forall|i: int| 0 <= i < tags.len() ==> (#[trigger] tag_version(tags[i])) is None,
        latest_version(tags) matches Some(l) ==> (exists|i: int| 0 <= i < tags.len() && #[trigger] tag_version(tags[i]) == Some(l))
            && forall|i: int| 0 <= i < tags.len() ==> (#[trigger] tag_version(tags[i]) matches Some(v) ==> !semver_lt(l, v)),
    decreases tags.len(),
{
    if tags.len() > 0 {
        let pre = tags.drop_last();
        law_latest_is_newest(pre);
        let n = tags.len() - 1;
        assert forall|i: int| 0 <= i < n implies #[trigger] tag_version(tags[i]) == tag_version(pre[i]) by {
            assert(tags[i] == pre[i]);
        }
        match (latest_version(pre), tag_version(tags.last())) {
            (Some(b), Some(v)) => {
                assert forall|i: int| 0 <= i < tags.len() implies (#[trigger] tag_version(tags[i]) matches Some(w) ==> !semver_lt(latest_version(tags).unwrap(), w)) by {
                    if i < n {
                        assert(tag_version(tags[i]) == tag_version(pre[i]));
                        match tag_version(pre[i]) {
                            Some(w) => {
                                law_release_order(b, w, v);
                                law_release_order(v, b, w);
                            },
                            None => {},
                        }
                    } else {
                        law_release_order(v, b, v);
                    }
                }
                if !semver_lt(v, b) {
                    assert(tag_version(tags[n]) == Some(v));
                } else {
                    let k = choose|k: int| 0 <= k < pre.len() && #[trigger] tag_version(pre[k]) == Some(b);
                    assert(tag_version(tags[k]) == Some(b));
                }
            },
            (Some(b), None) => {
                let k = choose|k: int| 0 <= k < pre.len() && #[trigger] tag_version(pre[k]) == Some(b);
                assert(tag_version(tags[k]) == Some(b));
            },
            (None, Some(v)) => {
                assert(tag_version(tags[n]) == Some(v));
                law_release_order(v, v, v);
            },
            (None, None) => {},
        }
    }
}

/// The newest release among the tag objects a tag listing returned.
pub fn latest_tag(tags: &Vec<Json>) -> (r: Option<Semver>)
    ensures
        r == latest_version(tags@),
{
    let mut best: Option<Semver> = None;
    let mut i: usize = 0;
    assert(tags@.subrange(0, 0) =~= Seq::<Json>::empty());
    while i < tags.len()
        invariant
            i <= tags.len(),
            best == latest_version(tags@.subrange(0, i as int)),
        decreases tags.len() - i,
    {
        let ghost pre = tags@.subrange(0, i as int);
        assert(tags@.subrange(0, i + 1).drop_last() =~= pre);
        assert(tags@.subrange(0, i + 1).last() == tags@[i as int]);
        let name = get_str(&tags[i], "name");
        proof {
            reveal_strlit("name");
            assert("name"@ =~= seq!['n', 'a', 'm', 'e']);
        }
        let v = match name {
            Some(n) => parse_semver(n.as_str()),
            None => None,
        };
        best = match (best, v) {
            (None, v) => v,
            (Some(b), None) => Some(b),
            (Some(b), Some(v)) => if semver_less(v, b) {
                Some(b)
            } else {
                Some(v)
            },
        };
        i = i + 1;
    }
    assert(tags@.subrange(0, tags@.len() as int) =~= tags@);
    best
}

/// `"MAJOR.MINOR.PATCH"`.
pub open spec fn version_text_spec(v: Semver) -> Seq<char> {
    decimal(v.0 as nat) + seq!['.'] + decimal(v.1 as nat) + seq!['.'] + decimal(v.2 as nat)
}

pub fn version_text(v: Semver) -> (r: String)
    ensures
        r@ == version_text_spec(v),
{
    let mut r = String::new();
    push_decimal(&mut r, v.0 as u64);
    push_char(&mut r, '.');
    push_decimal(&mut r, v.1 as u64);
    push_char(&mut r, '.');
    push_decimal(&mut r, v.2 as u64);
    assert(r@ =~= version_text_spec(v));
    r
}

/// The outcome of comparing the published tags with the running build.
pub struct UpdateInfo {
    pub latest: Semver,
    pub latest_text: String,
    pub update_available: bool,
}

/// The running build's version: its `MAJOR.MINOR.PATCH` text (a package
/// version has no leading `v`), read with the same three-number rule as a tag.
pub open spec fn build_version(text: Seq<char>) -> Option<Semver> {
    semver_spec(seq!['v'] + text)
}

/// Decides whether a release newer than this build is published.
/// `current_version` is the running build's `MAJOR.MINOR.PATCH` text; one
/// that does not read as three numbers counts as 0.0.0. `None` when no tag is
/// a release.
pub fn update_check(current_version: &str, tags: &Vec<Json>) -> (r: Option<UpdateInfo>)
    ensures
        r is None <==> latest_version(tags@) is None,
        r matches Some(info) ==> {
            let current = match build_version(current_version@) {
                Some(c) => c,
                None => (0u32, 0u32, 0u32),
            };
            &&& Some(info.latest) == latest_version(tags@)
            &&& info.latest_text@ == version_text_spec(info.latest)
            &&& info.update_available == semver_lt(current, info.latest)
        },
{
    proof {
        reveal_strlit("v");
        assert("v"@ =~= seq!['v']);
    }
    let tagged = concat2("v", current_version);
    let current = match parse_semver(tagged.as_str()) {
        Some(c) => c,
        None => (0, 0, 0),
    };
    match latest_tag(tags) {
        None => None,
        Some(latest) => Some(
            UpdateInfo {
                latest,
                latest_text: version_text(latest),
                update_available: semver_less(current, latest),
            },
        ),
    }
}

/// Printing a version and reading it back as a `v` tag gives the version back.
pub proof fn law_semver_text_roundtrip(v: Semver)
    ensures
        semver_spec(seq!['v'] + version_text_spec(v)) == Some(v),
{
    let t = seq!['v'] + version_text_spec(v);
    let (a, b, c) = (decimal(v.0 as nat), decimal(v.1 as nat), decimal(v.2 as nat));
    lemma_decimal_digits(v.0 as nat);
    lemma_decimal_digits(v.1 as nat);
    lemma_decimal_digits(v.2 as nat);
    assert(t.drop_first() =~= (a + seq!['.'] + b) + seq!['.'] + c);
    assert forall|x: Seq<char>| all_ascii_digits(x) implies !x.contains('.') by {
        if x.contains('.') {
            let k = choose|k: int| 0 <= k < x.len() && x[k] == '.';
            assert(is_ascii_digit(x[k]));
        }
    }
    lemma_split_on_concat(a + seq!['.'] + b, c, '.');
    lemma_split_on_concat(a, b, '.');
    lemma_split_on_none(a, '.');
    lemma_split_on_none(b, '.');
    lemma_split_on_none(c, '.');
    let parts = split_on(t.drop_first(), '.');
    assert(parts =~= seq![a, b, c]);
    assert(a[0] != '+');
    assert(b[0] != '+');
    assert(c[0] != '+');
}

} // verus!
