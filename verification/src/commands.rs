//! The decisions behind the user-facing commands: what the settings and
//! account files become, which helpers to start or stop after a settings
//! change, and the status the interface is shown.

use vstd::prelude::*;
use crate::json::{
    Json, JsonNumber, json_get, json_str, json_bool, get_str, str_eq, json_parse, parse_json, json_sorted,
    keys_ascending, keys_distinct, lemma_ascending_distinct,
};
use crate::text::{
    chars_of, owned, trim, trim_str, concat3, push_str, string_of_range, occurs_at, occurs_at_exec,
    space_run, space_run_end, decimal_run, decimal_run_end, parse_unsigned, parse_unsigned_bounded,
    is_space, is_decimal, all_ascii_digits, lemma_space_run, lemma_decimal_run,
};
use crate::version::{signed_decimal, i64_text, decimal, lemma_decimal_digits};
use crate::paths::{join_spec, join_path};
use crate::native::{first_with_id, find_account, lemma_first_with_id, occurs_nocase, occurs_nocase_exec, fold_char};

verus! {

// ---------------------------------------------------------------------------
// object members
// ---------------------------------------------------------------------------

/// An object's members with their names as text.
pub type Members = Seq<(Seq<char>, Json)>;

pub open spec fn members(fields: Seq<(String, Json)>) -> Members {
    fields.map_values(|m: (String, Json)| (m.0@, m.1))
}

/// The members of `fields` not named `key`, in order.
pub open spec fn without_key(fields: Members, key: Seq<char>) -> Members
    decreases fields.len(),
{
    if fields.len() == 0 {
        Seq::<(Seq<char>, Json)>::empty()
    } else {
        (if fields[0].0 == key {
            Seq::<(Seq<char>, Json)>::empty()
        } else {
            seq![fields[0]]
        }) + without_key(fields.drop_first(), key)
    }
}

/// The position of the first member named `key`.
pub open spec fn member_index(fields: Members, key: Seq<char>) -> Option<int>
    decreases fields.len(),
{
    if fields.len() == 0 {
        None
    } else if fields[0].0 == key {
        Some(0)
    } else {
        match member_index(fields.drop_first(), key) {
            Some(i) => Some(i + 1),
            None => None,
        }
    }
}

/// `fields` with `key` set to `v`: an existing member keeps its place and
/// takes the new value; otherwise the member is added at the end.
pub open spec fn with_member(fields: Members, key: Seq<char>, v: Json) -> Members {
    match member_index(fields, key) {
        Some(i) => fields.update(i, (key, v)),
        None => fields.push((key, v)),
    }
}

/// `fields` with every member of `data` set in turn.
pub open spec fn merged(fields: Members, data: Members) -> Members
    decreases data.len(),
{
    if data.len() == 0 {
        fields
    } else {
        merged(with_member(fields, data[0].0, data[0].1), data.drop_first())
    }
}

/// The value of the first member named `key`.
pub open spec fn member_value(fields: Members, key: Seq<char>) -> Option<Json> {
    match member_index(fields, key) {
        Some(i) => Some(fields[i].1),
        None => None,
    }
}

proof fn lemma_member_index_bound(fields: Members, key: Seq<char>)
    ensures
        member_index(fields, key) matches Some(i) ==> 0 <= i < fields.len() && fields[i].0 == key
            && forall|j: int| 0 <= j < i ==> (#[trigger] fields[j]).0 != key,
        member_index(fields, key) is None ==> forall|j: int| 0 <= j < fields.len() ==> (#[trigger] fields[j]).0 != key,
    decreases fields.len(),
{
    if fields.len() > 0 {
        lemma_member_index_bound(fields.drop_first(), key);
        assert forall|j: int| 0 < j < fields.len() implies #[trigger] fields[j] == fields.drop_first()[j - 1] by {}
    }
}

proof fn lemma_member_first(fields: Members, key: Seq<char>, i: int)
    requires
        0 <= i < fields.len(),
        fields[i].0 == key,
        forall|j: int| 0 <= j < i ==> (#[trigger] fields[j]).0 != key,
    ensures
        member_index(fields, key) == Some(i),
    decreases i,
{
    if i > 0 {
        assert forall|j: int| 0 <= j < i - 1 implies (#[trigger] fields.drop_first()[j]).0 != key by {
            assert(fields.drop_first()[j] == fields[j + 1]);
        }
        lemma_member_first(fields.drop_first(), key, i - 1);
    }
}

/// Where the first member named `key` stands, found by a scan.
fn find_member(fields: &Vec<(String, Json)>, key: &str) -> (r: Option<usize>)
    ensures
        r matches Some(i) ==> i < fields@.len() && member_index(members(fields@), key@) == Some(i as int),
        r is None ==> member_index(members(fields@), key@) is None,
{
    let ghost ms = members(fields@);
    proof {
        lemma_member_index_bound(ms, key@);
    }
    let mut i: usize = 0;
    while i < fields.len()
        invariant
            i <= fields@.len(),
            ms == members(fields@),
            forall|j: int| 0 <= j < i ==> (#[trigger] ms[j]).0 != key@,
        decreases fields.len() - i,
    {
        if str_eq(fields[i].0.as_str(), key) {
            proof {
                lemma_member_first(ms, key@, i as int);
            }
            return Some(i);
        }
        i = i + 1;
    }
    proof {
        match member_index(ms, key@) {
            Some(j) => {
                assert(ms[j].0 == key@);
            },
            None => {},
        }
    }
    None
}

/// Drops every member named `key`.
pub fn remove_member(fields: Vec<(String, Json)>, key: &str) -> (r: Vec<(String, Json)>)
    ensures
        members(r@) == without_key(members(fields@), key@),
{
    let mut rest = fields;
    let ghost orig = members(rest@);
    let mut out: Vec<(String, Json)> = Vec::new();
    while rest.len() > 0
        invariant
            members(out@) + without_key(members(rest@), key@) == without_key(orig, key@),
        decreases rest.len(),
    {
        let ghost before = members(rest@);
        let m = rest.remove(0);
        assert(members(rest@) =~= before.drop_first());
        assert(before[0] == (m.0@, m.1));
        if str_eq(m.0.as_str(), key) {
            assert(members(out@) + without_key(members(rest@), key@) =~= members(out@) + without_key(before, key@));
        } else {
            let ghost prev = members(out@);
            out.push(m);
            assert(members(out@) =~= prev.push((m.0@, m.1)));
            assert(members(out@) + without_key(members(rest@), key@) =~= prev + without_key(before, key@));
        }
    }
    assert(members(out@) + without_key(members(rest@), key@) =~= members(out@));
    out
}

/// Sets `key` to `v` (see `with_member`).
pub fn set_member(fields: &mut Vec<(String, Json)>, key: String, v: Json)
    ensures
        members(final(fields)@) == with_member(members(old(fields)@), key@, v),
{
    match find_member(fields, key.as_str()) {
        Some(i) => {
            let _ = fields.remove(i);
            fields.insert(i, (key, v));
            assert(members(fields@) =~= members(old(fields)@).update(i as int, (key@, v)));
        },
        None => {
            fields.push((key, v));
            assert(members(fields@) =~= members(old(fields)@).push((key@, v)));
        },
    }
}

/// Sets every member of `data` in turn (see `merged`).
pub fn merge_members(fields: &mut Vec<(String, Json)>, data: Vec<(String, Json)>)
    ensures
        members(final(fields)@) == merged(members(old(fields)@), members(data@)),
{
    let mut rest = data;
    let ghost orig = members(rest@);
    while rest.len() > 0
        invariant
            merged(members(old(fields)@), orig) == merged(members(fields@), members(rest@)),
        decreases rest.len(),
    {
        let ghost before = members(rest@);
        let m = rest.remove(0);
        assert(members(rest@) =~= before.drop_first());
        assert(before[0] == (m.0@, m.1));
        set_member(fields, m.0, m.1);
    }
}

/// Whether `key` names a member.
pub fn has_member(fields: &Vec<(String, Json)>, key: &str) -> (r: bool)
    ensures
        r == (member_index(members(fields@), key@) is Some),
{
    find_member(fields, key).is_some()
}

/// The value of the first member named `key`.
pub fn member<'a>(fields: &'a Vec<(String, Json)>, key: &str) -> (r: Option<&'a Json>)
    ensures
        r matches Some(j) ==> member_value(members(fields@), key@) == Some(*j),
        r is None ==> member_value(members(fields@), key@) is None,
{
    match find_member(fields, key) {
        Some(i) => Some(&fields[i].1),
        None => None,
    }
}

// ---------------------------------------------------------------------------
// settings
// ---------------------------------------------------------------------------

/// An optional text's characters.
pub open spec fn opt_text(t: Option<&str>) -> Option<Seq<char>> {
    match t {
        Some(s) => Some(s@),
        None => None,
    }
}

/// The members a settings file's text holds: those of the JSON object it
/// is, and none when there is no file or its text is not a JSON object.
pub open spec fn settings_text_spec(text: Option<Seq<char>>) -> Seq<(String, Json)> {
    match text {
        Some(t) => match json_parse(t) {
            Some(Json::Object(fields)) => fields@,
            _ => Seq::<(String, Json)>::empty(),
        },
        None => Seq::<(String, Json)>::empty(),
    }
}

/// Reads the settings from the settings file's text (`None` when the file
/// could not be read); the member names come out ascending, so distinct.
pub fn settings_from_text(text: Option<&str>) -> (r: Vec<(String, Json)>)
    ensures
        r@ == settings_text_spec(opt_text(text)),
        keys_ascending(r@),
        names_distinct(members(r@)),
{
    let r = match text {
        Some(t) => match parse_json(t) {
            Some(Json::Object(fields)) => fields,
            _ => Vec::new(),
        },
        None => Vec::new(),
    };
    proof {
        lemma_ascending_distinct(r@);
        let m = members(r@);
        assert forall|i: int, j: int| 0 <= i < j < m.len() implies #[trigger] m[i].0 != #[trigger] m[j].0 by {
            assert(m[i].0 == r@[i].0@ && m[j].0 == r@[j].0@);
            assert(keys_distinct(r@));
        }
    }
    r
}

/// The fast-flag document a flag file's text holds: the JSON value it is,
/// or an empty object when there is no file or the text is not JSON.
pub open spec fn flags_text_spec(text: Option<Seq<char>>, r: Json) -> bool {
    match text {
        Some(t) => match json_parse(t) {
            Some(j) => r == j,
            None => r matches Json::Object(f) && f@.len() == 0,
        },
        None => r matches Json::Object(f) && f@.len() == 0,
    }
}

/// Reads the fast flags from the flag file's text (`None` when there is no
/// file or it could not be read).
pub fn flags_from_text(text: Option<&str>) -> (r: Json)
    ensures
        flags_text_spec(opt_text(text), r),
        json_sorted(r),
{
    match text {
        Some(t) => match parse_json(t) {
            Some(j) => j,
            None => Json::Object(Vec::new()),
        },
        None => Json::Object(Vec::new()),
    }
}

/// The items a list file's text (accounts, packages, history) holds: the
/// elements of the JSON array it is, and none otherwise.
pub open spec fn list_text_spec(text: Option<Seq<char>>) -> Seq<Json> {
    match text {
        Some(t) => match json_parse(t) {
            Some(Json::Array(items)) => items@,
            _ => Seq::<Json>::empty(),
        },
        None => Seq::<Json>::empty(),
    }
}

/// Reads a list file's text (`None` when it could not be read).
pub fn list_from_text(text: Option<&str>) -> (r: Vec<Json>)
    ensures
        r@ == list_text_spec(opt_text(text)),
{
    match text {
        Some(t) => match parse_json(t) {
            Some(Json::Array(items)) => items,
            _ => Vec::new(),
        },
        None => Vec::new(),
    }
}

/// The settings as the interface sees them: without the key material
/// (`customKeyEnc`, `customKey`, `keyVerifier`, `_deviceKey`), and with
/// `keySet` telling whether a passphrase protects the accounts.
pub open spec fn settings_view_spec(s: Members, key_set: bool) -> Members {
    with_member(
        without_key(
            without_key(without_key(without_key(s, "customKeyEnc"@), "customKey"@), "keyVerifier"@),
            "_deviceKey"@,
        ),
        "keySet"@,
        Json::Bool(key_set),
    )
}

pub fn settings_load(settings: Vec<(String, Json)>, key_set: bool) -> (r: Vec<(String, Json)>)
    ensures
        members(r@) == settings_view_spec(members(settings@), key_set),
{
    let s = remove_member(settings, "customKeyEnc");
    let s = remove_member(s, "customKey");
    let s = remove_member(s, "keyVerifier");
    let mut s = remove_member(s, "_deviceKey");
    let k = owned("keySet");
    proof {
        reveal_strlit("keySet");
    }
    set_member(&mut s, k, Json::Bool(key_set));
    s
}

/// What a helper process should do after a settings change.
pub enum HelperAction {
    Keep,
    Start,
    Stop,
    Restart,
}

/// The side effects a settings save asks for.
pub struct SettingsChange {
    /// The encryption type changed: cached keys are stale.
    pub invalidate_key: bool,
    /// The multi-instance mutex holder.
    pub mutex_holder: HelperAction,
    /// The anti-AFK helper.
    pub antiafk: HelperAction,
}

/// The settings after a save: the stored settings without the webhook and
/// screenshot options, with the submitted members (minus any key material)
/// set over them.
pub open spec fn saved_settings_spec(stored: Members, submitted: Members) -> Members {
    merged(
        without_key(without_key(stored, "webhook"@), "screenshotsEnabled"@),
        submitted_settings(submitted),
    )
}

/// The submitted settings without key material.
pub open spec fn submitted_settings(submitted: Members) -> Members {
    without_key(without_key(without_key(submitted, "customKey"@), "customKeyEnc"@), "keyVerifier"@)
}

/// The helper action a boolean toggle asks for.
pub open spec fn toggle_action(v: Option<bool>) -> HelperAction {
    match v {
        Some(true) => HelperAction::Start,
        Some(false) => HelperAction::Stop,
        None => HelperAction::Keep,
    }
}

/// Merges submitted settings into the stored ones and decides the side
/// effects: a submitted `encryptionType` invalidates cached keys; a boolean
/// `multiInstance` starts or stops the mutex holder; a boolean `antiAfk`
/// starts or stops the anti-AFK helper, and otherwise a changed
/// `antiAfkInterval` restarts a running one.
pub fn settings_save(
    stored: Vec<(String, Json)>,
    submitted: Vec<(String, Json)>,
    antiafk_running: bool,
) -> (r: (Vec<(String, Json)>, SettingsChange))
    ensures
        members(r.0@) == saved_settings_spec(members(stored@), members(submitted@)),
        r.1.invalidate_key == (member_index(submitted_settings(members(submitted@)), "encryptionType"@) is Some),
        r.1.mutex_holder == toggle_action(json_bool(member_value(submitted_settings(members(submitted@)), "multiInstance"@))),
        r.1.antiafk == (match json_bool(member_value(submitted_settings(members(submitted@)), "antiAfk"@)) {
            Some(on) => toggle_action(Some(on)),
            None => if antiafk_running && member_index(submitted_settings(members(submitted@)), "antiAfkInterval"@) is Some {
                HelperAction::Restart
            } else {
                HelperAction::Keep
            },
        }),
{
    proof {
        reveal_strlit("multiInstance");
        reveal_strlit("antiAfk");
    }
    let data = remove_member(submitted, "customKey");
    let data = remove_member(data, "customKeyEnc");
    let data = remove_member(data, "keyVerifier");
    let s = remove_member(stored, "webhook");
    let mut s = remove_member(s, "screenshotsEnabled");
    let invalidate_key = has_member(&data, "encryptionType");
    let multi = match member(&data, "multiInstance") {
        Some(v) => v.as_bool(),
        None => None,
    };
    let afk = match member(&data, "antiAfk") {
        Some(v) => v.as_bool(),
        None => None,
    };
    let interval_changed = has_member(&data, "antiAfkInterval");
    let mutex_holder = match multi {
        Some(true) => HelperAction::Start,
        Some(false) => HelperAction::Stop,
        None => HelperAction::Keep,
    };
    let antiafk = match afk {
        Some(true) => HelperAction::Start,
        Some(false) => HelperAction::Stop,
        None => if antiafk_running && interval_changed {
            HelperAction::Restart
        } else {
            HelperAction::Keep
        },
    };
    merge_members(&mut s, data);
    (s, SettingsChange { invalidate_key, mutex_holder, antiafk })
}

/// Whether a boolean setting is on (off when absent or not a boolean).
pub fn setting_flag(settings: &Vec<(String, Json)>, key: &str) -> (r: bool)
    ensures
        r == (json_bool(member_value(members(settings@), key@)) == Some(true)),
{
    match member(settings, key) {
        Some(v) => match v.as_bool() {
            Some(b) => b,
            None => false,
        },
        None => false,
    }
}

/// The encryption state shown to the user: `setup` before a passphrase is
/// chosen, then `unlocked` or `locked`.
pub fn enc_status(passphrase_mode: bool, unlocked: bool) -> (r: &'static str)
    ensures
        r@ == (if !passphrase_mode {
            "setup"@
        } else if unlocked {
            "unlocked"@
        } else {
            "locked"@
        }),
{
    if !passphrase_mode {
        "setup"
    } else if unlocked {
        "unlocked"
    } else {
        "locked"
    }
}

/// The passphrase a key change sets: the submitted text trimmed (empty for
/// none, which removes the passphrase).
pub fn new_passphrase(pass: Option<&str>) -> (r: String)
    ensures
        r@ == match pass {
            Some(p) => trim(p@),
            None => Seq::<char>::empty(),
        },
{
    match pass {
        Some(p) => trim_str(p),
        None => String::new(),
    }
}

/// The settings after a key change: legacy key members dropped; with a new
/// passphrase its verifier stored as `keyVerifier`, without one the verifier
/// removed; `encSetupDone` set either way.
pub open spec fn key_settings_spec(s: Members, verifier: Option<String>) -> Members {
    let base = without_key(without_key(s, "customKey"@), "customKeyEnc"@);
    match verifier {
        Some(v) => with_member(with_member(base, "keyVerifier"@, Json::Str(v)), "encSetupDone"@, Json::Bool(true)),
        None => with_member(without_key(base, "keyVerifier"@), "encSetupDone"@, Json::Bool(true)),
    }
}


pub fn key_settings(settings: Vec<(String, Json)>, verifier: Option<String>) -> (r: Vec<(String, Json)>)
    ensures
        members(r@) == key_settings_spec(members(settings@), verifier),
{
    proof {
        reveal_strlit("keyVerifier");
        reveal_strlit("encSetupDone");
    }
    let s = remove_member(settings, "customKey");
    let s = remove_member(s, "customKeyEnc");
    let mut s = match verifier {
        Some(v) => {
            let mut s = s;
            set_member(&mut s, owned("keyVerifier"), Json::Str(v));
            s
        },
        None => remove_member(s, "keyVerifier"),
    };
    set_member(&mut s, owned("encSetupDone"), Json::Bool(true));
    s
}

/// Whether re-reading the accounts lost a cookie: some stored account has a
/// non-empty `cookie` string while its decrypted form has none or an empty
/// one (accounts paired in order).
pub open spec fn lost_cookie_spec(stored: Seq<Json>, decrypted: Seq<Json>) -> bool {
    exists|i: int|
        0 <= i < stored.len() && i < decrypted.len() && has_cookie(#[trigger] stored[i]) && !has_cookie(decrypted[i])
}

/// The account holds a non-empty `cookie` string.
pub open spec fn has_cookie(a: Json) -> bool {
    match json_str(json_get(a, "cookie"@)) {
        Some(c) => c.len() > 0,
        None => false,
    }
}

/// The passphrase-change check catches every single loss: it is true as
/// soon as one paired account had a non-empty stored `cookie` string and its
/// decrypted form has no such string or an empty one, whatever the other
/// accounts decrypt to; it is true only then; and adding more accounts
/// (that decrypt fine or not) never turns a detected loss into none.
pub proof fn law_lost_cookie_caught(
    stored: Seq<Json>,
    decrypted: Seq<Json>,
    i: int,
    more_stored: Seq<Json>,
    more_decrypted: Seq<Json>,
)
    ensures
        (0 <= i < stored.len() && i < decrypted.len() && (json_str(json_get(stored[i], "cookie"@)) matches Some(c)
            && c.len() > 0) && match json_str(json_get(decrypted[i], "cookie"@)) {
            Some(c) => c.len() == 0,
            None => true,
        }) ==> lost_cookie_spec(stored, decrypted),
        lost_cookie_spec(stored, decrypted) ==> exists|k: int|
            0 <= k < stored.len() && k < decrypted.len() && (json_str(json_get(#[trigger] stored[k], "cookie"@)) matches Some(
                c,
            ) && c.len() > 0) && match json_str(json_get(decrypted[k], "cookie"@)) {
                Some(c) => c.len() == 0,
                None => true,
            },
        lost_cookie_spec(stored, decrypted) ==> lost_cookie_spec(stored + more_stored, decrypted + more_decrypted),
{
    if 0 <= i < stored.len() && i < decrypted.len() && has_cookie(stored[i]) && !has_cookie(decrypted[i]) {
        assert(lost_cookie_spec(stored, decrypted));
    }
    if lost_cookie_spec(stored, decrypted) {
        let k = choose|k: int|
            0 <= k < stored.len() && k < decrypted.len() && has_cookie(#[trigger] stored[k]) && !has_cookie(decrypted[k]);
        assert((stored + more_stored)[k] == stored[k]);
        assert((decrypted + more_decrypted)[k] == decrypted[k]);
        assert(has_cookie((stored + more_stored)[k]));
    }
}

fn cookie_nonempty(a: &Json) -> (r: bool)
    ensures
        r == has_cookie(*a),
{
    proof {
        reveal_strlit("cookie");
    }
    match get_str(a, "cookie") {
        Some(c) => c.as_str().unicode_len() > 0,
        None => false,
    }
}

/// Checks, before a key change re-encrypts the accounts, that decrypting
/// them lost no cookie.
pub fn lost_cookie(stored: &Vec<Json>, decrypted: &Vec<Json>) -> (r: bool)
    ensures
        r == lost_cookie_spec(stored@, decrypted@),
{
    let mut i: usize = 0;
    while i < stored.len() && i < decrypted.len()
        invariant
            i <= stored@.len(),
            forall|j: int| 0 <= j < i ==> !(has_cookie(#[trigger] stored@[j]) && !has_cookie(decrypted@[j])),
        decreases stored.len() - i,
    {
        if cookie_nonempty(&stored[i]) && !cookie_nonempty(&decrypted[i]) {
            assert(has_cookie(stored@[i as int]) && !has_cookie(decrypted@[i as int]));
            return true;
        }
        i = i + 1;
    }
    false
}
// ---------------------------------------------------------------------------
// accounts
// ---------------------------------------------------------------------------

/// A lower-case hexadecimal digit.
pub open spec fn is_lower_hex(c: char) -> bool {
    ('0' <= c <= '9') || ('a' <= c <= 'f')
}

/// The text of a random (version 4) UUID: 36 characters, lower-case hex in
/// groups of 8-4-4-4-12 separated by hyphens, `4` as the version digit and
/// one of `8`, `9`, `a`, `b` as the variant digit.
pub open spec fn is_v4_uuid_text(s: Seq<char>) -> bool {
    &&& s.len() == 36
    &&& forall|i: int|
        0 <= i < 36 ==> (if i == 8 || i == 13 || i == 18 || i == 23 {
            s[i] == '-'
        } else {
            is_lower_hex(#[trigger] s[i])
        })
    &&& s[14] == '4'
    &&& (s[19] == '8' || s[19] == '9' || s[19] == 'a' || s[19] == 'b')
}

/// Calls `uuid::Uuid::new_v4()` and formats it with `to_string`. Trusted:
/// the text is a hyphenated lower-case version-4 UUID (the bits are random).
#[verifier::external_body]
fn new_account_id() -> (r: String)
    ensures
        is_v4_uuid_text(r@),
{
    uuid::Uuid::new_v4().to_string()
}

/// An ASCII digit.
pub open spec fn is_digit_char(c: char) -> bool {
    '0' <= c <= '9'
}

/// The year field of an RFC 3339 date as chrono writes it: four digits, or,
/// for a year outside 0..=9999, a sign and at least four digits.
pub open spec fn year_field(y: Seq<char>) -> bool {
    ||| y.len() == 4 && forall|i: int| 0 <= i < 4 ==> is_digit_char(#[trigger] y[i])
    ||| y.len() >= 5 && (y[0] == '+' || y[0] == '-') && forall|i: int|
        1 <= i < y.len() ==> is_digit_char(#[trigger] y[i])
}

/// `-MM-DDThh:mm:ss`: fifteen characters, the separators in place and two
/// digits in each field.
pub open spec fn date_time_fields(b: Seq<char>) -> bool {
    &&& b.len() == 15
    &&& b[0] == '-' && b[3] == '-' && b[6] == 'T' && b[9] == ':' && b[12] == ':'
    &&& forall|i: int|
        0 <= i < 15 && i != 0 && i != 3 && i != 6 && i != 9 && i != 12 ==> is_digit_char(#[trigger] b[i])
}

/// The fraction of a second: none, or a dot and three, six or nine digits.
pub open spec fn second_fraction(f: Seq<char>) -> bool {
    ||| f.len() == 0
    ||| (f.len() == 4 || f.len() == 7 || f.len() == 10) && f[0] == '.' && forall|i: int|
        1 <= i < f.len() ==> is_digit_char(#[trigger] f[i])
}

/// An RFC 3339 UTC timestamp as chrono's `to_rfc3339` writes it:
/// `YYYY-MM-DDThh:mm:ss`, an optional fraction of a second, and `+00:00`.
pub open spec fn rfc3339_utc_text(t: Seq<char>) -> bool {
    exists|y: Seq<char>, b: Seq<char>, f: Seq<char>|
        #![trigger year_field(y), date_time_fields(b), second_fraction(f)]
        year_field(y) && date_time_fields(b) && second_fraction(f) && t == y + b + f
            + seq!['+', '0', '0', ':', '0', '0']
}

/// Calls `chrono::Utc::now().to_rfc3339()`. Trusted: the text is an
/// RFC 3339 timestamp with offset `+00:00`, laid out as chrono's
/// `write_rfc3339` writes it (the fraction as `SecondsFormat::AutoSi`
/// picks it); which instant it names is not stated: it is the current time.
#[verifier::external_body]
fn utc_now_rfc3339() -> (r: String)
    ensures
        rfc3339_utc_text(r@),
{
    chrono::Utc::now().to_rfc3339()
}

/// A new saved account: the submitted members with `id`, `createdAt` and
/// `lastUsed` (null) set.
pub open spec fn new_account_spec(account: Members, id: String, created_at: String) -> Members {
    with_member(
        with_member(with_member(account, "id"@, Json::Str(id)), "createdAt"@, Json::Str(created_at)),
        "lastUsed"@,
        Json::Null,
    )
}

/// Adds an account with the given id and creation time at the end of the
/// list; gives back its position.
pub fn add_account(accounts: &mut Vec<Json>, account: Vec<(String, Json)>, id: String, created_at: String) -> (r: usize)
    ensures
        r == old(accounts)@.len(),
        final(accounts)@.len() == old(accounts)@.len() + 1,
        final(accounts)@.subrange(0, r as int) == old(accounts)@,
        final(accounts)@[r as int] matches Json::Object(f) && members(f@) == new_account_spec(
            members(account@),
            id,
            created_at,
        ),
{
    proof {
        reveal_strlit("id");
        reveal_strlit("createdAt");
        reveal_strlit("lastUsed");
    }
    let mut a = account;
    set_member(&mut a, owned("id"), Json::Str(id));
    set_member(&mut a, owned("createdAt"), Json::Str(created_at));
    set_member(&mut a, owned("lastUsed"), Json::Null);
    let n = accounts.len();
    accounts.push(Json::Object(a));
    assert(accounts@.subrange(0, n as int) =~= old(accounts)@);
    n
}

/// Adds a submitted account under a fresh random id, created now.
pub fn accounts_add(accounts: &mut Vec<Json>, account: Vec<(String, Json)>) -> (r: usize)
    ensures
        r == old(accounts)@.len(),
        final(accounts)@.len() == old(accounts)@.len() + 1,
        final(accounts)@.subrange(0, r as int) == old(accounts)@,
        final(accounts)@[r as int] matches Json::Object(f) && exists|id: String, created_at: String|
            is_v4_uuid_text(id@) && rfc3339_utc_text(created_at@) && members(f@) == new_account_spec(
                members(account@),
                id,
                created_at,
            ),
{
    let id = new_account_id();
    let created_at = utc_now_rfc3339();
    let ghost (gid, gat) = (id, created_at);
    let r = add_account(accounts, account, id, created_at);
    assert(is_v4_uuid_text(gid@) && rfc3339_utc_text(gat@));
    r
}

/// The saved accounts whose `id` is not `account_id`, in order.
pub open spec fn accounts_without(accounts: Seq<Json>, account_id: Seq<char>) -> Seq<Json>
    decreases accounts.len(),
{
    if accounts.len() == 0 {
        Seq::<Json>::empty()
    } else {
        (if json_str(json_get(accounts[0], "id"@)) == Some(account_id) {
            Seq::<Json>::empty()
        } else {
            seq![accounts[0]]
        }) + accounts_without(accounts.drop_first(), account_id)
    }
}

/// Drops every saved account whose `id` is `account_id`.
pub fn accounts_remove(accounts: Vec<Json>, account_id: &str) -> (r: Vec<Json>)
    ensures
        r@ == accounts_without(accounts@, account_id@),
{
    proof {
        reveal_strlit("id");
    }
    let mut rest = accounts;
    let ghost orig = rest@;
    let mut out: Vec<Json> = Vec::new();
    while rest.len() > 0
        invariant
            out@ + accounts_without(rest@, account_id@) == accounts_without(orig, account_id@),
        decreases rest.len(),
    {
        let ghost before = rest@;
        let a = rest.remove(0);
        assert(rest@ =~= before.drop_first());
        let matches_id = match get_str(&a, "id") {
            Some(s) => str_eq(s.as_str(), account_id),
            None => false,
        };
        if matches_id {
            assert(out@ + accounts_without(rest@, account_id@) =~= out@ + accounts_without(before, account_id@));
        } else {
            let ghost prev = out@;
            out.push(a);
            assert(out@ + accounts_without(rest@, account_id@) =~= prev + accounts_without(before, account_id@));
        }
    }
    assert(out@ + accounts_without(rest@, account_id@) =~= out@);
    out
}

/// Sets the submitted members on the first saved account whose `id` is
/// `account_id` (when it is an object); gives back its position, or `None`
/// when there is no such account.
pub fn accounts_update(accounts: &mut Vec<Json>, account_id: &str, data: Vec<(String, Json)>) -> (r: Option<usize>)
    ensures
        r == (match first_with_id(old(accounts)@, account_id@) {
            Some(i) => Some(i as usize),
            None => None::<usize>,
        }),
        final(accounts)@.len() == old(accounts)@.len(),
        forall|j: int| 0 <= j < old(accounts)@.len() && Some(j as usize) != r ==> #[trigger] final(accounts)@[j] == old(accounts)@[j],
        r matches Some(i) ==> match old(accounts)@[i as int] {
            Json::Object(f) => final(accounts)@[i as int] matches Json::Object(g) && members(g@) == merged(members(f@), members(data@)),
            other => final(accounts)@[i as int] == other,
        },
{
    match find_account(accounts, account_id) {
        None => None,
        Some(i) => {
            let a = accounts.remove(i);
            let b = match a {
                Json::Object(f) => {
                    let mut f = f;
                    merge_members(&mut f, data);
                    Json::Object(f)
                },
                other => other,
            };
            accounts.insert(i, b);
            assert forall|j: int| 0 <= j < old(accounts)@.len() && j != i implies #[trigger] accounts@[j] == old(accounts)@[j] by {
                if j < i {
                } else {
                }
            }
            Some(i)
        },
    }
}

/// Stamps `lastUsed` on the first saved account whose `id` is `account_id`;
/// gives back its position.
pub fn set_last_used(accounts: &mut Vec<Json>, account_id: &str, when: String) -> (r: Option<usize>)
    ensures
        r == (match first_with_id(old(accounts)@, account_id@) {
            Some(i) => Some(i as usize),
            None => None::<usize>,
        }),
        final(accounts)@.len() == old(accounts)@.len(),
        forall|j: int| 0 <= j < old(accounts)@.len() && Some(j as usize) != r ==> #[trigger] final(accounts)@[j] == old(accounts)@[j],
        r matches Some(i) ==> match old(accounts)@[i as int] {
            Json::Object(f) => final(accounts)@[i as int] matches Json::Object(g) && members(g@) == with_member(members(f@), "lastUsed"@, Json::Str(when)),
            other => final(accounts)@[i as int] == other,
        },
{
    proof {
        reveal_strlit("lastUsed");
    }
    match find_account(accounts, account_id) {
        None => None,
        Some(i) => {
            let a = accounts.remove(i);
            let b = match a {
                Json::Object(f) => {
                    let mut f = f;
                    set_member(&mut f, owned("lastUsed"), Json::Str(when));
                    Json::Object(f)
                },
                other => other,
            };
            accounts.insert(i, b);
            assert forall|j: int| 0 <= j < old(accounts)@.len() && j != i implies #[trigger] accounts@[j] == old(accounts)@[j] by {
                if j < i {
                } else {
                }
            }
            Some(i)
        },
    }
}

/// Stamps `lastUsed` with the current time on a launched account.
pub fn mark_used(accounts: &mut Vec<Json>, account_id: &str) -> (r: Option<usize>)
    ensures
        r == (match first_with_id(old(accounts)@, account_id@) {
            Some(i) => Some(i as usize),
            None => None::<usize>,
        }),
        final(accounts)@.len() == old(accounts)@.len(),
        forall|j: int| 0 <= j < old(accounts)@.len() && Some(j as usize) != r ==> #[trigger] final(accounts)@[j] == old(accounts)@[j],
        r matches Some(i) ==> match old(accounts)@[i as int] {
            Json::Object(f) => final(accounts)@[i as int] matches Json::Object(g) && exists|when: String|
                members(g@) == with_member(members(f@), "lastUsed"@, Json::Str(when)),
            other => final(accounts)@[i as int] == other,
        },
{
    let when = utc_now_rfc3339();
    let ghost w = when;
    let r = set_last_used(accounts, account_id, when);
    proof {
        match r {
            Some(i) => {
                match old(accounts)@[i as int] {
                    Json::Object(f) => {
                        let g = accounts@[i as int]->Object_0;
                        assert(members(g@) == with_member(members(f@), "lastUsed"@, Json::Str(w)));
                    },
                    _ => {},
                }
            },
            None => {},
        }
    }
    r
}

/// An account's `id` text, empty when it has none.
pub open spec fn id_or_empty(a: Json) -> Seq<char> {
    match json_str(json_get(a, "id"@)) {
        Some(s) => s,
        None => Seq::<char>::empty(),
    }
}

/// The positions of the requested accounts, in the requested order: for
/// each requested id that some account has, the first such account.
pub open spec fn requested_positions(accounts: Seq<Json>, ids: Seq<Seq<char>>) -> Seq<int>
    decreases ids.len(),
{
    if ids.len() == 0 {
        Seq::<int>::empty()
    } else {
        (match first_with_id(accounts, ids[0]) {
            Some(k) => seq![k],
            None => Seq::<int>::empty(),
        }) + requested_positions(accounts, ids.drop_first())
    }
}

/// The positions, below `n` and in order, of the accounts whose id (empty
/// when none) was not requested.
pub open spec fn other_positions(accounts: Seq<Json>, ids: Seq<Seq<char>>, n: int) -> Seq<int>
    decreases n,
{
    if n <= 0 {
        Seq::<int>::empty()
    } else {
        other_positions(accounts, ids, n - 1) + (if ids.contains(id_or_empty(accounts[n - 1])) {
            Seq::<int>::empty()
        } else {
            seq![n - 1]
        })
    }
}

/// The new order of the accounts: the requested ones first, in the requested
/// order, then the others in their old order.
pub open spec fn reorder_spec(accounts: Seq<Json>, ids: Seq<Seq<char>>) -> Seq<int> {
    requested_positions(accounts, ids) + other_positions(accounts, ids, accounts.len() as int)
}

pub open spec fn id_texts(ids: Seq<String>) -> Seq<Seq<char>> {
    ids.map_values(|s: String| s@)
}

fn contains_text(ids: &Vec<String>, s: &str) -> (r: bool)
    ensures
        r == id_texts(ids@).contains(s@),
{
    let mut i: usize = 0;
    while i < ids.len()
        invariant
            i <= ids@.len(),
            forall|j: int| 0 <= j < i ==> (#[trigger] ids@[j])@ != s@,
        decreases ids.len() - i,
    {
        if str_eq(ids[i].as_str(), s) {
            assert(id_texts(ids@)[i as int] == s@);
            return true;
        }
        i = i + 1;
    }
    proof {
        if id_texts(ids@).contains(s@) {
            let k = choose|k: int| 0 <= k < id_texts(ids@).len() && id_texts(ids@)[k] == s@;
            assert(ids@[k]@ == s@);
        }
    }
    false
}

/// The positions of the accounts in their new order (see `reorder_spec`).
pub fn accounts_reorder(accounts: &Vec<Json>, ids: &Vec<String>) -> (r: Vec<usize>)
    ensures
        r@.map_values(|k: usize| k as int) == reorder_spec(accounts@, id_texts(ids@)),
{
    proof {
        reveal_strlit("id");
    }
    let ghost texts = id_texts(ids@);
    let mut r: Vec<usize> = Vec::new();
    let mut i: usize = 0;
    assert(texts.skip(0) =~= texts);
    assert(r@.map_values(|k: usize| k as int) =~= Seq::<int>::empty());
    while i < ids.len()
        invariant
            i <= ids@.len(),
            texts == id_texts(ids@),
            r@.map_values(|k: usize| k as int) + requested_positions(accounts@, texts.skip(i as int))
                == requested_positions(accounts@, texts),
        decreases ids.len() - i,
    {
        assert(texts.skip(i as int)[0] == ids@[i as int]@);
        assert(texts.skip(i as int).drop_first() =~= texts.skip(i + 1));
        let ghost prev = r@.map_values(|k: usize| k as int);
        match find_account(accounts, ids[i].as_str()) {
            Some(k) => {
                r.push(k);
                assert(r@.map_values(|k: usize| k as int) =~= prev.push(k as int));
                assert(r@.map_values(|k: usize| k as int) + requested_positions(accounts@, texts.skip(i + 1))
                    =~= prev + requested_positions(accounts@, texts.skip(i as int)));
            },
            None => {
                assert(prev + requested_positions(accounts@, texts.skip(i + 1))
                    =~= prev + requested_positions(accounts@, texts.skip(i as int)));
            },
        }
        i = i + 1;
    }
    assert(texts.skip(i as int) =~= Seq::<Seq<char>>::empty());
    let ghost front = r@.map_values(|k: usize| k as int);
    assert(front =~= requested_positions(accounts@, texts));
    let mut k: usize = 0;
    while k < accounts.len()
        invariant
            k <= accounts@.len(),
            texts == id_texts(ids@),
            front == requested_positions(accounts@, texts),
            r@.map_values(|x: usize| x as int) == front + other_positions(accounts@, texts, k as int),
        decreases accounts.len() - k,
    {
        let aid = match get_str(&accounts[k], "id") {
            Some(s) => s,
            None => String::new(),
        };
        assert(aid@ == id_or_empty(accounts@[k as int]));
        let ghost prev = r@.map_values(|x: usize| x as int);
        if !contains_text(ids, aid.as_str()) {
            r.push(k);
            assert(r@.map_values(|x: usize| x as int) =~= prev.push(k as int));
            assert(r@.map_values(|x: usize| x as int) =~= front + other_positions(accounts@, texts, k + 1));
        } else {
            assert(prev =~= front + other_positions(accounts@, texts, k + 1));
        }
        k = k + 1;
    }
    r
}

proof fn lemma_requested_positions(accounts: Seq<Json>, ids: Seq<Seq<char>>)
    ensures
        forall|x: int| #[trigger] requested_positions(accounts, ids).contains(x) ==> 0 <= x < accounts.len()
            && ids.contains(id_or_empty(accounts[x])),
        ids.no_duplicates() ==> requested_positions(accounts, ids).no_duplicates(),
    decreases ids.len(),
{
    if ids.len() > 0 {
        let rest = ids.drop_first();
        lemma_requested_positions(accounts, rest);
        lemma_first_with_id(accounts, ids[0]);
        let tail = requested_positions(accounts, rest);
        let head = match first_with_id(accounts, ids[0]) {
            Some(k) => seq![k],
            None => Seq::<int>::empty(),
        };
        let all = requested_positions(accounts, ids);
        assert(all == head + tail);
        assert forall|x: int| #[trigger] all.contains(x) implies 0 <= x < accounts.len() && ids.contains(
            id_or_empty(accounts[x]),
        ) by {
            let j = choose|j: int| 0 <= j < all.len() && all[j] == x;
            if j < head.len() {
                assert(ids[0] == id_or_empty(accounts[x]));
                assert(ids.contains(ids[0]));
            } else {
                assert(tail[j - head.len()] == x);
                assert(tail.contains(x));
                let t = choose|t: int| 0 <= t < rest.len() && rest[t] == id_or_empty(accounts[x]);
                assert(ids[t + 1] == rest[t]);
            }
        }
        if ids.no_duplicates() {
            assert(rest.no_duplicates()) by {
                assert forall|a: int, b: int| 0 <= a < rest.len() && 0 <= b < rest.len() && a != b implies rest[a] != rest[b] by {
                    assert(rest[a] == ids[a + 1]);
                    assert(rest[b] == ids[b + 1]);
                }
            }
            assert forall|a: int, b: int| 0 <= a < all.len() && 0 <= b < all.len() && a != b implies all[a] != all[b] by {
                if a < head.len() && b >= head.len() {
                    let x = all[b];
                    assert(tail[b - head.len()] == x);
                    assert(tail.contains(x));
                    if all[a] == x {
                        assert(id_or_empty(accounts[x]) == ids[0]);
                        let t = choose|t: int| 0 <= t < rest.len() && rest[t] == id_or_empty(accounts[x]);
                        assert(ids[t + 1] == ids[0]);
                    }
                } else if b < head.len() && a >= head.len() {
                    let x = all[a];
                    assert(tail[a - head.len()] == x);
                    assert(tail.contains(x));
                    if all[b] == x {
                        assert(id_or_empty(accounts[x]) == ids[0]);
                        let t = choose|t: int| 0 <= t < rest.len() && rest[t] == id_or_empty(accounts[x]);
                        assert(ids[t + 1] == ids[0]);
                    }
                } else if a >= head.len() && b >= head.len() {
                    assert(all[a] == tail[a - head.len()]);
                    assert(all[b] == tail[b - head.len()]);
                }
            }
        }
    }
}

proof fn lemma_requested_complete(accounts: Seq<Json>, ids: Seq<Seq<char>>, k: int)
    requires
        0 <= k < accounts.len(),
        forall|i: int| 0 <= i < accounts.len() ==> json_str(json_get(#[trigger] accounts[i], "id"@)) is Some,
        forall|i: int, j: int|
            0 <= i < j < accounts.len() ==> id_or_empty(#[trigger] accounts[i]) != id_or_empty(#[trigger] accounts[j]),
        ids.contains(id_or_empty(accounts[k])),
    ensures
        requested_positions(accounts, ids).contains(k),
    decreases ids.len(),
{
    let rest = ids.drop_first();
    let all = requested_positions(accounts, ids);
    let tail = requested_positions(accounts, rest);
    if ids[0] == id_or_empty(accounts[k]) {
        lemma_first_with_id(accounts, ids[0]);
        assert(json_str(json_get(accounts[k], "id"@)) == Some(ids[0]));
        match first_with_id(accounts, ids[0]) {
            Some(i) => {
                if i != k {
                    if i < k {
                        assert(id_or_empty(accounts[i]) != id_or_empty(accounts[k]));
                    } else {
                        assert(id_or_empty(accounts[k]) != id_or_empty(accounts[i]));
                    }
                }
                assert(all[0] == k);
            },
            None => {},
        }
    } else {
        let t = choose|t: int| 0 <= t < ids.len() && ids[t] == id_or_empty(accounts[k]);
        assert(rest[t - 1] == ids[t]);
        lemma_requested_complete(accounts, rest, k);
        let j = choose|j: int| 0 <= j < tail.len() && tail[j] == k;
        let head_len = all.len() - tail.len();
        assert(all[head_len + j] == k);
    }
}

proof fn lemma_other_positions(accounts: Seq<Json>, ids: Seq<Seq<char>>, n: int)
    requires
        0 <= n <= accounts.len(),
    ensures
        forall|x: int| #[trigger] other_positions(accounts, ids, n).contains(x) <==> (0 <= x < n
            && !ids.contains(id_or_empty(accounts[x]))),
        other_positions(accounts, ids, n).no_duplicates(),
    decreases n,
{
    if n > 0 {
        lemma_other_positions(accounts, ids, n - 1);
        let prev = other_positions(accounts, ids, n - 1);
        let all = other_positions(accounts, ids, n);
        assert forall|x: int| #[trigger] all.contains(x) <==> (0 <= x < n && !ids.contains(id_or_empty(accounts[x]))) by {
            if all.contains(x) {
                let j = choose|j: int| 0 <= j < all.len() && all[j] == x;
                if j < prev.len() {
                    assert(prev.contains(x));
                }
            }
            if 0 <= x < n && !ids.contains(id_or_empty(accounts[x])) {
                if x < n - 1 {
                    assert(prev.contains(x));
                    let j = choose|j: int| 0 <= j < prev.len() && prev[j] == x;
                    assert(all[j] == x);
                } else {
                    assert(all[prev.len() as int] == x);
                }
            }
        }
        assert forall|a: int, b: int| 0 <= a < all.len() && 0 <= b < all.len() && a != b implies all[a] != all[b] by {
            if a < prev.len() && b < prev.len() {
                assert(all[a] == prev[a] && all[b] == prev[b]);
            } else if a < prev.len() {
                assert(prev.contains(all[a]));
            } else if b < prev.len() {
                assert(prev.contains(all[b]));
            }
        }
    }
}

/// Reordering by distinct requested ids, when every account has an id of
/// its own, is a permutation: each account appears exactly once.
pub proof fn law_reorder_is_permutation(accounts: Seq<Json>, ids: Seq<Seq<char>>)
    requires
        forall|i: int| 0 <= i < accounts.len() ==> json_str(json_get(#[trigger] accounts[i], "id"@)) is Some,
        forall|i: int, j: int|
            0 <= i < j < accounts.len() ==> id_or_empty(#[trigger] accounts[i]) != id_or_empty(#[trigger] accounts[j]),
        ids.no_duplicates(),
    ensures
        reorder_spec(accounts, ids).no_duplicates(),
        forall|k: int| #[trigger] reorder_spec(accounts, ids).contains(k) <==> 0 <= k < accounts.len(),
{
    let front = requested_positions(accounts, ids);
    let back = other_positions(accounts, ids, accounts.len() as int);
    let all = reorder_spec(accounts, ids);
    lemma_requested_positions(accounts, ids);
    lemma_other_positions(accounts, ids, accounts.len() as int);
    assert forall|k: int| #[trigger] all.contains(k) <==> 0 <= k < accounts.len() by {
        if all.contains(k) {
            let j = choose|j: int| 0 <= j < all.len() && all[j] == k;
            if j < front.len() {
                assert(front.contains(k));
            } else {
                assert(back[j - front.len()] == k);
                assert(back.contains(k));
            }
        }
        if 0 <= k < accounts.len() {
            if ids.contains(id_or_empty(accounts[k])) {
                lemma_requested_complete(accounts, ids, k);
                let j = choose|j: int| 0 <= j < front.len() && front[j] == k;
                assert(all[j] == k);
            } else {
                assert(back.contains(k));
                let j = choose|j: int| 0 <= j < back.len() && back[j] == k;
                assert(all[front.len() + j] == k);
            }
        }
    }
    assert forall|a: int, b: int| 0 <= a < all.len() && 0 <= b < all.len() && a != b implies all[a] != all[b] by {
        if a < front.len() && b < front.len() {
            assert(all[a] == front[a] && all[b] == front[b]);
        } else if a >= front.len() && b >= front.len() {
            assert(all[a] == back[a - front.len()] && all[b] == back[b - front.len()]);
        } else if a < front.len() {
            assert(front.contains(all[a]));
            assert(back[b - front.len()] == all[b]);
            assert(back.contains(all[b]));
        } else {
            assert(front.contains(all[b]));
            assert(back[a - front.len()] == all[a]);
            assert(back.contains(all[a]));
        }
    }
}

proof fn lemma_without_key(fields: Members, key: Seq<char>)
    ensures
        forall|m: (Seq<char>, Json)| #[trigger] without_key(fields, key).contains(m) <==> (fields.contains(m) && m.0 != key),
    decreases fields.len(),
{
    if fields.len() > 0 {
        lemma_without_key(fields.drop_first(), key);
        let rest = without_key(fields.drop_first(), key);
        let head = if fields[0].0 == key {
            Seq::<(Seq<char>, Json)>::empty()
        } else {
            seq![fields[0]]
        };
        let all = without_key(fields, key);
        assert(all == head + rest);
        assert forall|m: (Seq<char>, Json)| #[trigger] all.contains(m) <==> (fields.contains(m) && m.0 != key) by {
            if all.contains(m) {
                let j = choose|j: int| 0 <= j < all.len() && all[j] == m;
                if j < head.len() {
                    assert(fields[0] == m);
                } else {
                    assert(rest[j - head.len()] == m);
                    assert(rest.contains(m));
                    let t = choose|t: int| 0 <= t < fields.drop_first().len() && fields.drop_first()[t] == m;
                    assert(fields[t + 1] == m);
                }
            }
            if fields.contains(m) && m.0 != key {
                let t = choose|t: int| 0 <= t < fields.len() && fields[t] == m;
                if t == 0 {
                    assert(all[0] == m);
                } else {
                    assert(fields.drop_first()[t - 1] == m);
                    assert(rest.contains(m));
                    let j = choose|j: int| 0 <= j < rest.len() && rest[j] == m;
                    assert(all[head.len() + j] == m);
                }
            }
        }
    }
}

proof fn lemma_with_member_names(fields: Members, key: Seq<char>, v: Json, name: Seq<char>)
    requires
        name != key,
        forall|m: (Seq<char>, Json)| fields.contains(m) ==> m.0 != name,
    ensures
        forall|m: (Seq<char>, Json)| with_member(fields, key, v).contains(m) ==> m.0 != name,
{
    lemma_member_index_bound(fields, key);
    let r = with_member(fields, key, v);
    assert forall|m: (Seq<char>, Json)| r.contains(m) implies m.0 != name by {
        let j = choose|j: int| 0 <= j < r.len() && r[j] == m;
        match member_index(fields, key) {
            Some(i) => {
                if j != i {
                    assert(fields[j] == m);
                    assert(fields.contains(m));
                }
            },
            None => {
                if j < fields.len() {
                    assert(fields[j] == m);
                    assert(fields.contains(m));
                }
            },
        }
    }
}

/// The settings shown to the interface never carry key material: no member
/// is named `customKeyEnc`, `customKey`, `keyVerifier` or `_deviceKey`.
pub proof fn law_settings_view_hides_keys(s: Members, key_set: bool)
    ensures
        forall|m: (Seq<char>, Json)| #[trigger] settings_view_spec(s, key_set).contains(m) ==> m.0 != "customKeyEnc"@
            && m.0 != "customKey"@ && m.0 != "keyVerifier"@ && m.0 != "_deviceKey"@,
{
    reveal_strlit("customKeyEnc");
    reveal_strlit("customKey");
    reveal_strlit("keyVerifier");
    reveal_strlit("_deviceKey");
    reveal_strlit("keySet");
    let a = without_key(s, "customKeyEnc"@);
    let b = without_key(a, "customKey"@);
    let c = without_key(b, "keyVerifier"@);
    let d = without_key(c, "_deviceKey"@);
    lemma_without_key(s, "customKeyEnc"@);
    lemma_without_key(a, "customKey"@);
    lemma_without_key(b, "keyVerifier"@);
    lemma_without_key(c, "_deviceKey"@);
    assert("keySet"@[0] != "customKeyEnc"@[0]);
    assert("keySet"@[0] != "customKey"@[0]);
    assert("keySet"@[3] != "keyVerifier"@[3]);
    lemma_with_member_names(d, "keySet"@, Json::Bool(key_set), "customKeyEnc"@);
    lemma_with_member_names(d, "keySet"@, Json::Bool(key_set), "customKey"@);
    lemma_with_member_names(d, "keySet"@, Json::Bool(key_set), "keyVerifier"@);
    lemma_with_member_names(d, "keySet"@, Json::Bool(key_set), "_deviceKey"@);
}

/// Removing an account by id leaves no account with that id, and keeps
/// every other account, in order.
pub proof fn law_remove_forgets_account(accounts: Seq<Json>, account_id: Seq<char>)
    ensures
        forall|a: Json| #[trigger] accounts_without(accounts, account_id).contains(a) <==> (accounts.contains(a)
            && json_str(json_get(a, "id"@)) != Some(account_id)),
    decreases accounts.len(),
{
    if accounts.len() > 0 {
        law_remove_forgets_account(accounts.drop_first(), account_id);
        let rest = accounts_without(accounts.drop_first(), account_id);
        let head = if json_str(json_get(accounts[0], "id"@)) == Some(account_id) {
            Seq::<Json>::empty()
        } else {
            seq![accounts[0]]
        };
        let all = accounts_without(accounts, account_id);
        assert(all == head + rest);
        assert forall|a: Json| #[trigger] all.contains(a) <==> (accounts.contains(a) && json_str(json_get(a, "id"@)) != Some(account_id)) by {
            if all.contains(a) {
                let j = choose|j: int| 0 <= j < all.len() && all[j] == a;
                if j < head.len() {
                    assert(accounts[0] == a);
                } else {
                    assert(rest[j - head.len()] == a);
                    assert(rest.contains(a));
                    let t = choose|t: int| 0 <= t < accounts.drop_first().len() && accounts.drop_first()[t] == a;
                    assert(accounts[t + 1] == a);
                }
            }
            if accounts.contains(a) && json_str(json_get(a, "id"@)) != Some(account_id) {
                let t = choose|t: int| 0 <= t < accounts.len() && accounts[t] == a;
                if t == 0 {
                    assert(all[0] == a);
                } else {
                    assert(accounts.drop_first()[t - 1] == a);
                    assert(rest.contains(a));
                    let j = choose|j: int| 0 <= j < rest.len() && rest[j] == a;
                    assert(all[head.len() + j] == a);
                }
            }
        }
    }
}

/// Positions in `accounts`, strictly increasing, of the entries that make
/// up `kept` (so `kept` is a subsequence of `accounts`, in order).
pub open spec fn picks_in_order(kept: Seq<Json>, accounts: Seq<Json>, idx: Seq<int>) -> bool {
    &&& idx.len() == kept.len()
    &&& forall|k: int| 0 <= k < kept.len() ==> 0 <= #[trigger] idx[k] < accounts.len() && kept[k] == accounts[idx[k]]
    &&& forall|k: int, l: int| 0 <= k < l < kept.len() ==> #[trigger] idx[k] < #[trigger] idx[l]
}

proof fn lemma_remove_positions(accounts: Seq<Json>, account_id: Seq<char>) -> (idx: Seq<int>)
    ensures
        picks_in_order(accounts_without(accounts, account_id), accounts, idx),
        forall|i: int|
            0 <= i < accounts.len() && json_str(json_get(accounts[i], "id"@)) != Some(account_id) ==> exists|k: int|
                0 <= k < idx.len() && #[trigger] idx[k] == i,
    decreases accounts.len(),
{
    if accounts.len() == 0 {
        Seq::<int>::empty()
    } else {
        let tail = accounts.drop_first();
        let sub = lemma_remove_positions(tail, account_id);
        let shifted = Seq::new(sub.len(), |k: int| sub[k] + 1);
        let rest = accounts_without(tail, account_id);
        let kept_head = json_str(json_get(accounts[0], "id"@)) != Some(account_id);
        let idx = if kept_head {
            seq![0int] + shifted
        } else {
            shifted
        };
        let all = accounts_without(accounts, account_id);
        let off: int = if kept_head { 1 } else { 0 };
        assert(all == (if kept_head { seq![accounts[0]] } else { Seq::<Json>::empty() }) + rest);
        assert forall|k: int| 0 <= k < all.len() implies 0 <= #[trigger] idx[k] < accounts.len() && all[k] == accounts[idx[k]] by {
            if k >= off {
                assert(idx[k] == sub[k - off] + 1);
                assert(all[k] == rest[k - off]);
                assert(tail[sub[k - off]] == accounts[sub[k - off] + 1]);
            }
        }
        assert forall|k: int, l: int| 0 <= k < l < all.len() implies #[trigger] idx[k] < #[trigger] idx[l] by {
            if k >= off {
                assert(idx[k] == sub[k - off] + 1 && idx[l] == sub[l - off] + 1);
            } else {
                assert(idx[l] == sub[l - off] + 1);
            }
        }
        assert forall|i: int|
            0 <= i < accounts.len() && json_str(json_get(accounts[i], "id"@)) != Some(account_id) implies exists|k: int|
                0 <= k < idx.len() && #[trigger] idx[k] == i by {
            if i == 0 {
                assert(idx[0] == 0);
            } else {
                assert(tail[i - 1] == accounts[i]);
                let k = choose|k: int| 0 <= k < sub.len() && #[trigger] sub[k] == i - 1;
                assert(idx[k + off] == i);
            }
        }
        idx
    }
}

/// Removing an account keeps the other accounts in their original order:
/// the result is a subsequence of the list (strictly increasing positions),
/// holds every account whose id is not the removed one, and none whose id
/// is.
pub proof fn law_remove_keeps_order(accounts: Seq<Json>, account_id: Seq<char>)
    ensures
        exists|idx: Seq<int>|
            picks_in_order(accounts_without(accounts, account_id), accounts, idx) && forall|i: int|
                0 <= i < accounts.len() && json_str(json_get(accounts[i], "id"@)) != Some(account_id) ==> exists|
                    k: int,
                | 0 <= k < idx.len() && #[trigger] idx[k] == i,
        forall|k: int|
            0 <= k < accounts_without(accounts, account_id).len() ==> json_str(
                json_get(#[trigger] accounts_without(accounts, account_id)[k], "id"@),
            ) != Some(account_id),
{
    let idx = lemma_remove_positions(accounts, account_id);
    law_remove_forgets_account(accounts, account_id);
    let r = accounts_without(accounts, account_id);
    assert forall|k: int| 0 <= k < r.len() implies json_str(json_get(#[trigger] r[k], "id"@)) != Some(account_id) by {
        assert(r.contains(r[k]));
    }
}

// ---------------------------------------------------------------------------
// frame-rate cap
// ---------------------------------------------------------------------------

/// The game's own settings file, which holds the frame-rate cap.
pub fn global_settings_path(home: &str) -> (r: String)
    ensures
        r@ == join_spec(
            join_spec(join_spec(join_spec(home@, "AppData"@), "Local"@), "Roblox"@),
            "GlobalBasicSettings_13.xml"@,
        ),
{
    let a = join_path(home, "AppData");
    let b = join_path(a.as_str(), "Local");
    let c = join_path(b.as_str(), "Roblox");
    let d = join_path(c.as_str(), "GlobalBasicSettings_13.xml");
    d
}

/// The frame-rate cap read when the game's settings file cannot be read or
/// holds none.
pub const DEFAULT_FPS: i64 = 60;

/// Whether the frame-rate element `<int name="FramerateCap">digits</int>`
/// (any case, white space after `int` and before `>`) starts at `i`: the
/// bounds of its digits.
pub open spec fn cap_tag_at(s: Seq<char>, i: int) -> Option<(int, int)> {
    let n0 = i + 4 + space_run(s, i + 4);
    let n1 = n0 + 19;
    let g = n1 + space_run(s, n1);
    let d0 = g + 1;
    let d1 = d0 + decimal_run(s, d0);
    if occurs_nocase(s, i, "<int"@) && space_run(s, i + 4) > 0 && occurs_nocase(s, n0, "name=\"frameratecap\""@)
        && g < s.len() && s[g] == '>' && d1 > d0 && occurs_nocase(s, d1, "</int>"@) {
        Some((d0, d1))
    } else {
        None
    }
}

/// The first frame-rate element at or after `i`: where it starts and the
/// bounds of its digits.
pub open spec fn first_cap_tag(s: Seq<char>, i: int) -> Option<(int, int, int)>
    decreases s.len() - i,
{
    if i < 0 || i >= s.len() {
        None
    } else {
        match cap_tag_at(s, i) {
            Some((a, b)) => Some((i, a, b)),
            None => first_cap_tag(s, i + 1),
        }
    }
}

fn cap_tag_at_exec(s: &Vec<char>, i: usize, p1: &Vec<char>, p2: &Vec<char>, p3: &Vec<char>) -> (r: Option<(usize, usize)>)
    requires
        i < s.len(),
        p1@ == "<int"@,
        p2@ == "name=\"frameratecap\""@,
        p3@ == "</int>"@,
    ensures
        r matches Some((a, b)) ==> cap_tag_at(s@, i as int) == Some((a as int, b as int)) && i < a < b && b + 6 <= s.len(),
        r is None ==> cap_tag_at(s@, i as int) is None,
{
    proof {
        reveal_strlit("<int");
        reveal_strlit("name=\"frameratecap\"");
        reveal_strlit("</int>");
    }
    if !occurs_nocase_exec(s, i, p1) {
        return None;
    }
    let n0 = space_run_end(s, i + 4);
    if n0 == i + 4 || !occurs_nocase_exec(s, n0, p2) {
        return None;
    }
    let g = space_run_end(s, n0 + 19);
    if g >= s.len() || s[g] != '>' {
        return None;
    }
    let d1 = decimal_run_end(s, g + 1);
    if d1 == g + 1 || !occurs_nocase_exec(s, d1, p3) {
        return None;
    }
    Some((g + 1, d1))
}

fn find_cap_tag(s: &Vec<char>) -> (r: Option<(usize, usize, usize)>)
    ensures
        r matches Some((i, a, b)) ==> first_cap_tag(s@, 0) == Some((i as int, a as int, b as int)) && i < a < b
            && b + 6 <= s.len(),
        r is None ==> first_cap_tag(s@, 0) is None,
{
    let p1 = chars_of("<int");
    let p2 = chars_of("name=\"frameratecap\"");
    let p3 = chars_of("</int>");
    let mut i: usize = 0;
    while i < s.len()
        invariant
            i <= s.len(),
            p1@ == "<int"@,
            p2@ == "name=\"frameratecap\""@,
            p3@ == "</int>"@,
            first_cap_tag(s@, 0) == first_cap_tag(s@, i as int),
        decreases s.len() - i,
    {
        match cap_tag_at_exec(s, i, &p1, &p2, &p3) {
            Some((a, b)) => {
                return Some((i, a, b));
            },
            None => {},
        }
        i = i + 1;
    }
    None
}

/// The frame-rate cap in the game's settings file (`None` when it cannot be
/// read): the digits of the first frame-rate element as an `i64`, else 60.
pub open spec fn fps_read_spec(xml: Option<Seq<char>>) -> i64 {
    match xml {
        None => DEFAULT_FPS,
        Some(x) => match first_cap_tag(x, 0) {
            Some((i, a, b)) => match parse_unsigned(x.subrange(a, b)) {
                Some(v) => if v <= i64::MAX {
                    v as i64
                } else {
                    DEFAULT_FPS
                },
                None => DEFAULT_FPS,
            },
            None => DEFAULT_FPS,
        },
    }
}

pub fn fps_read(xml: Option<&str>) -> (r: i64)
    ensures
        r == fps_read_spec(match xml {
            Some(x) => Some(x@),
            None => None,
        }),
{
    match xml {
        None => DEFAULT_FPS,
        Some(x) => {
            let s = chars_of(x);
            match find_cap_tag(&s) {
                Some((_i, a, b)) => {
                    let d = string_of_range(&s, a, b);
                    let dv = chars_of(d.as_str());
                    match parse_unsigned_bounded(&dv, i64::MAX as u64) {
                        Some(v) => v as i64,
                        None => DEFAULT_FPS,
                    }
                },
                None => DEFAULT_FPS,
            }
        },
    }
}

/// Where `</Item>` first occurs in `s` at or after `i`.
pub open spec fn first_item_end(s: Seq<char>, i: int) -> Option<int>
    decreases s.len() - i,
{
    if i < 0 || i >= s.len() {
        None
    } else if occurs_at(s, i, "</Item>"@) {
        Some(i)
    } else {
        first_item_end(s, i + 1)
    }
}

/// The settings file with the frame-rate cap set to `value`: the first
/// frame-rate element rewritten, or, when there is none, a new element put
/// before the first `</Item>` (the file is unchanged when it has neither).
pub open spec fn fps_xml_spec(xml: Seq<char>, value: i64) -> Seq<char> {
    let elem = "<int name=\"FramerateCap\">"@ + signed_decimal(value as int) + "</int>"@;
    match first_cap_tag(xml, 0) {
        Some((i, a, b)) => xml.subrange(0, i) + elem + xml.subrange(b + 6, xml.len() as int),
        None => match first_item_end(xml, 0) {
            Some(j) => xml.subrange(0, j) + "\t\t"@ + elem + "\n</Item>"@ + xml.subrange(j + 7, xml.len() as int),
            None => xml,
        },
    }
}

pub fn fps_xml_update(xml: &str, value: i64) -> (r: String)
    ensures
        r@ == fps_xml_spec(xml@, value),
{
    let s = chars_of(xml);
    let v = i64_text(value);
    let elem = concat3("<int name=\"FramerateCap\">", v.as_str(), "</int>");
    match find_cap_tag(&s) {
        Some((i, _a, b)) => {
            let mut r = string_of_range(&s, 0, i);
            push_str(&mut r, elem.as_str());
            let tail = string_of_range(&s, b + 6, s.len());
            push_str(&mut r, tail.as_str());
            r
        },
        None => {
            let pat = chars_of("</Item>");
            proof {
                reveal_strlit("</Item>");
            }
            let mut j: usize = 0;
            while j < s.len()
                invariant
                    j <= s.len(),
                    s@ == xml@,
                    elem@ == "<int name=\"FramerateCap\">"@ + signed_decimal(value as int) + "</int>"@,
                    first_cap_tag(s@, 0) is None,
                    pat@ == "</Item>"@,
                    pat@.len() == 7,
                    first_item_end(s@, 0) == first_item_end(s@, j as int),
                decreases s.len() - j,
            {
                if occurs_at_exec(&s, j, &pat) {
                    let mut r = string_of_range(&s, 0, j);
                    push_str(&mut r, "\t\t");
                    push_str(&mut r, elem.as_str());
                    push_str(&mut r, "\n</Item>");
                    let tail = string_of_range(&s, j + 7, s.len());
                    push_str(&mut r, tail.as_str());
                    return r;
                }
                j = j + 1;
            }
            owned(xml)
        },
    }
}

/// A JSON integer as a reader stores it.
pub open spec fn int_number(v: i64) -> JsonNumber {
    if v >= 0 {
        JsonNumber::PosInt(v as u64)
    } else {
        JsonNumber::NegInt(v)
    }
}

/// The fast flags with the task scheduler's target set to the cap (9999,
/// i.e. no cap, for 0).
pub fn frame_rate_flags(flags: Vec<(String, Json)>, value: i64) -> (r: Vec<(String, Json)>)
    ensures
        members(r@) == with_member(
            members(flags@),
            "DFIntTaskSchedulerTargetFps"@,
            Json::Number(int_number(if value == 0 {
                9999i64
            } else {
                value
            })),
        ),
{
    let v: i64 = if value == 0 {
        9999
    } else {
        value
    };
    let n = if v >= 0 {
        JsonNumber::PosInt(v as u64)
    } else {
        JsonNumber::NegInt(v)
    };
    let mut f = flags;
    proof {
        reveal_strlit("DFIntTaskSchedulerTargetFps");
    }
    set_member(&mut f, owned("DFIntTaskSchedulerTargetFps"), Json::Number(n));
    f
}

// ---------------------------------------------------------------------------
// reading back a written frame-rate cap
// ---------------------------------------------------------------------------

/// The frame-rate element a write puts in the settings file.
pub open spec fn cap_element(value: i64) -> Seq<char> {
    "<int name=\"FramerateCap\">"@ + signed_decimal(value as int) + "</int>"@
}

proof fn lemma_nocase_chars(s: Seq<char>, p: int, pat: Seq<char>)
    requires
        occurs_nocase(s, p, pat),
    ensures
        forall|q: int| 0 <= q < pat.len() ==> fold_char(s[p + q]) == fold_char(#[trigger] pat[q]),
{
    assert forall|q: int| 0 <= q < pat.len() implies fold_char(s[p + q]) == fold_char(#[trigger] pat[q]) by {
        let a = s.subrange(p, p + pat.len()).map_values(|c: char| fold_char(c));
        let b = pat.map_values(|c: char| fold_char(c));
        assert(a[q] == b[q]);
    }
}

proof fn lemma_agree_at(s1: Seq<char>, s2: Seq<char>, m: int, q: int)
    requires
        0 <= q < m,
        m <= s1.len(),
        m <= s2.len(),
        s1.subrange(0, m) == s2.subrange(0, m),
    ensures
        s1[q] == s2[q],
{
    assert(s1.subrange(0, m)[q] == s1[q]);
    assert(s2.subrange(0, m)[q] == s2[q]);
}

proof fn lemma_nocase_agree(s1: Seq<char>, s2: Seq<char>, p: int, pat: Seq<char>, m: int)
    requires
        0 <= p,
        p + pat.len() <= m <= s1.len(),
        m <= s2.len(),
        s1.subrange(0, m) == s2.subrange(0, m),
    ensures
        occurs_nocase(s1, p, pat) == occurs_nocase(s2, p, pat),
{
    assert forall|q: int| p <= q < p + pat.len() implies s1[q] == s2[q] by {
        lemma_agree_at(s1, s2, m, q);
    }
    assert(s1.subrange(p, p + pat.len()) =~= s2.subrange(p, p + pat.len()));
}

proof fn lemma_space_run_agree(s1: Seq<char>, s2: Seq<char>, p: int, m: int)
    requires
        0 <= p,
        p + space_run(s2, p) < m,
        m <= s1.len(),
        m <= s2.len(),
        s1.subrange(0, m) == s2.subrange(0, m),
    ensures
        space_run(s1, p) == space_run(s2, p),
    decreases m - p,
{
    lemma_agree_at(s1, s2, m, p);
    if is_space(s2[p]) {
        lemma_space_run_agree(s1, s2, p + 1, m);
    }
}

proof fn lemma_decimal_run_agree(s1: Seq<char>, s2: Seq<char>, p: int, m: int)
    requires
        0 <= p,
        p + decimal_run(s2, p) < m,
        m <= s1.len(),
        m <= s2.len(),
        s1.subrange(0, m) == s2.subrange(0, m),
    ensures
        decimal_run(s1, p) == decimal_run(s2, p),
    decreases m - p,
{
    lemma_agree_at(s1, s2, m, p);
    if is_decimal(s2[p]) {
        lemma_decimal_run_agree(s1, s2, p + 1, m);
    }
}

/// Where the digits of the frame-rate element at `k` end (0 when there is
/// none).
pub open spec fn cap_end(s: Seq<char>, k: int) -> int {
    match cap_tag_at(s, k) {
        Some((a, b)) => b,
        None => 0,
    }
}

/// A frame-rate element that ends within a stretch two texts share is found
/// in both.
proof fn lemma_tag_agree(s1: Seq<char>, s2: Seq<char>, k: int, m: int)
    requires
        0 <= k,
        m <= s1.len(),
        m <= s2.len(),
        s1.subrange(0, m) == s2.subrange(0, m),
        cap_tag_at(s2, k) is Some,
        cap_end(s2, k) + 6 <= m,
    ensures
        cap_tag_at(s1, k) == cap_tag_at(s2, k),
{
    reveal_strlit("<int");
    reveal_strlit("name=\"frameratecap\"");
    reveal_strlit("</int>");
    let n0 = k + 4 + space_run(s2, k + 4);
    let n1 = n0 + 19;
    let g = n1 + space_run(s2, n1);
    let d0 = g + 1;
    let d1 = d0 + decimal_run(s2, d0);
    lemma_nocase_agree(s1, s2, k, "<int"@, m);
    lemma_space_run_agree(s1, s2, k + 4, m);
    lemma_nocase_agree(s1, s2, n0, "name=\"frameratecap\""@, m);
    lemma_space_run_agree(s1, s2, n1, m);
    lemma_agree_at(s1, s2, m, g);
    lemma_decimal_run_agree(s1, s2, d0, m);
    lemma_nocase_agree(s1, s2, d1, "</int>"@, m);
}

/// A `<` followed by `i` cannot stand inside a frame-rate element.
proof fn lemma_no_open_inside(s: Seq<char>, k: int, x: int)
    requires
        0 <= k < x,
        x + 1 < s.len(),
        s[x] == '<',
        s[x + 1] == 'i',
    ensures
        cap_tag_at(s, k) is Some ==> x >= cap_end(s, k) + 6,
{
    if cap_tag_at(s, k) is Some && x < cap_end(s, k) + 6 {
        lemma_open_inside_cases(s, k, x);
    }
}

proof fn lemma_open_inside_cases(s: Seq<char>, k: int, x: int)
    requires
        0 <= k < x,
        x + 1 < s.len(),
        s[x] == '<',
        s[x + 1] == 'i',
        cap_tag_at(s, k) is Some,
        x < cap_end(s, k) + 6,
    ensures
        x >= cap_end(s, k) + 6,
{
    reveal_strlit("<int");
    reveal_strlit("name=\"frameratecap\"");
    reveal_strlit("</int>");
    let n0 = k + 4 + space_run(s, k + 4);
    let n1 = n0 + 19;
    let g = n1 + space_run(s, n1);
    let d0 = g + 1;
    let d1 = d0 + decimal_run(s, d0);
    lemma_nocase_chars(s, k, "<int"@);
    lemma_nocase_chars(s, n0, "name=\"frameratecap\""@);
    lemma_nocase_chars(s, d1, "</int>"@);
    lemma_space_run(s, k + 4);
    lemma_space_run(s, n1);
    lemma_decimal_run(s, d0);
    assert(fold_char('<') == '<');
    assert(!is_space('<'));
    assert(!is_decimal('<'));
    if x < k + 4 {
        assert(fold_char(s[k + (x - k)]) == fold_char("<int"@[x - k]));
    } else if x < n0 {
        assert(is_space(s[x]));
    } else if x < n1 {
        assert(fold_char(s[n0 + (x - n0)]) == fold_char("name=\"frameratecap\""@[x - n0]));
    } else if x < g {
        assert(is_space(s[x]));
    } else if x == g {
    } else if x < d1 {
        assert(is_decimal(s[x]));
    } else if x == d1 {
        assert(fold_char(s[d1 + 1]) == fold_char("</int>"@[1]));
        assert(fold_char('i') == 'i');
    } else {
        assert(fold_char(s[d1 + (x - d1)]) == fold_char("</int>"@[x - d1]));
    }
}

/// Two tabs followed by `<` cannot end a frame-rate element early: the tabs
/// could only be white space inside it, and what follows white space there
/// is never `<`.
proof fn lemma_no_tabs_inside(s: Seq<char>, k: int, x: int)
    requires
        0 <= k < x,
        x + 2 < s.len(),
        s[x] == '\t',
        s[x + 1] == '\t',
        s[x + 2] == '<',
    ensures
        cap_tag_at(s, k) is Some ==> x >= cap_end(s, k) + 6,
{
    if cap_tag_at(s, k) is Some && x < cap_end(s, k) + 6 {
        lemma_tabs_inside_cases(s, k, x);
    }
}

proof fn lemma_tabs_inside_cases(s: Seq<char>, k: int, x: int)
    requires
        0 <= k < x,
        x + 2 < s.len(),
        s[x] == '\t',
        s[x + 1] == '\t',
        s[x + 2] == '<',
        cap_tag_at(s, k) is Some,
        x < cap_end(s, k) + 6,
    ensures
        x >= cap_end(s, k) + 6,
{
    reveal_strlit("<int");
    reveal_strlit("name=\"frameratecap\"");
    reveal_strlit("</int>");
    let n0 = k + 4 + space_run(s, k + 4);
    let n1 = n0 + 19;
    let g = n1 + space_run(s, n1);
    let d0 = g + 1;
    let d1 = d0 + decimal_run(s, d0);
    lemma_nocase_chars(s, k, "<int"@);
    lemma_nocase_chars(s, n0, "name=\"frameratecap\""@);
    lemma_nocase_chars(s, d1, "</int>"@);
    lemma_space_run(s, k + 4);
    lemma_space_run(s, n1);
    lemma_decimal_run(s, d0);
    assert(fold_char('\t') == '\t');
    assert(fold_char('<') == '<');
    assert(is_space('\t'));
    assert(!is_space('<'));
    assert(!is_decimal('\t'));
    if x < k + 4 {
        assert(fold_char(s[k + (x - k)]) == fold_char("<int"@[x - k]));
    } else if x < n0 {
        if n0 < x + 2 {
            assert(!is_space(s[n0]));
        }
        if n0 > x + 2 {
            assert(is_space(s[x + 2]));
        }
        assert(n0 == x + 2);
        assert(fold_char(s[n0 + 0]) == fold_char("name=\"frameratecap\""@[0]));
    } else if x < n1 {
        assert(fold_char(s[n0 + (x - n0)]) == fold_char("name=\"frameratecap\""@[x - n0]));
    } else if x < g {
        if g < x + 2 {
            assert(!is_space(s[g]));
        }
        if g > x + 2 {
            assert(is_space(s[x + 2]));
        }
    } else if x == g {
    } else if x < d1 {
        assert(is_decimal(s[x]));
    } else {
        assert(fold_char(s[d1 + (x - d1)]) == fold_char("</int>"@[x - d1]));
    }
}

proof fn lemma_first_cap_tag_at(s: Seq<char>, i0: int, i: int)
    requires
        0 <= i0 <= i < s.len(),
        cap_tag_at(s, i) is Some,
        forall|k: int| i0 <= k < i ==> (#[trigger] cap_tag_at(s, k)) is None,
    ensures
        first_cap_tag(s, i0) == Some((i, cap_tag_at(s, i).unwrap().0, cap_end(s, i))),
    decreases i - i0,
{
    if i0 < i {
        lemma_first_cap_tag_at(s, i0 + 1, i);
    }
}

proof fn lemma_first_cap_tag_facts(s: Seq<char>, i0: int)
    requires
        0 <= i0,
    ensures
        first_cap_tag(s, i0) matches Some((i, a, b)) ==> i0 <= i < s.len() && cap_tag_at(s, i) == Some((a, b))
            && forall|k: int| i0 <= k < i ==> (#[trigger] cap_tag_at(s, k)) is None,
        first_cap_tag(s, i0) is None ==> forall|k: int| i0 <= k ==> (#[trigger] cap_tag_at(s, k)) is None,
    decreases s.len() - i0,
{
    reveal_strlit("<int");
    if i0 < s.len() {
        lemma_first_cap_tag_facts(s, i0 + 1);
    } else {
        assert forall|k: int| i0 <= k implies (#[trigger] cap_tag_at(s, k)) is None by {
            assert(!occurs_nocase(s, k, "<int"@));
        }
    }
}

proof fn lemma_decimal_run_exact(s: Seq<char>, p: int, n: int)
    requires
        0 <= p,
        0 <= n,
        p + n < s.len(),
        forall|q: int| p <= q < p + n ==> is_decimal(#[trigger] s[q]),
        !is_decimal(s[p + n]),
    ensures
        decimal_run(s, p) == n,
    decreases n,
{
    if n > 0 {
        lemma_decimal_run_exact(s, p + 1, n - 1);
    }
}

/// The element a write puts at `i` is found there, its digits right after
/// the `>`.
proof fn lemma_element_found(s: Seq<char>, i: int, v: i64)
    requires
        0 <= i,
        v >= 0,
        i + cap_element(v).len() <= s.len(),
        s.subrange(i, i + cap_element(v).len()) == cap_element(v),
    ensures
        cap_tag_at(s, i) == Some((i + 25, i + 25 + decimal(v as nat).len())),
{
    reveal_strlit("<int");
    reveal_strlit("name=\"frameratecap\"");
    reveal_strlit("</int>");
    reveal_strlit("<int name=\"FramerateCap\">");
    let d = decimal(v as nat);
    lemma_decimal_digits(v as nat);
    let e = cap_element(v);
    assert(signed_decimal(v as int) == d);
    assert(e.len() == 25 + d.len() + 6);
    assert forall|q: int| 0 <= q < e.len() implies s[i + q] == #[trigger] e[q] by {
        assert(s.subrange(i, i + e.len())[q] == e[q]);
    }
    assert(s.subrange(i, i + 4) =~= "<int"@) by {
        assert forall|q: int| 0 <= q < 4 implies s.subrange(i, i + 4)[q] == "<int"@[q] by {
            assert(s[i + q] == e[q]);
        }
    }
    assert(s[i + 4] == e[4]);
    assert(s[i + 5] == e[5]);
    assert(is_space(s[i + 4]));
    assert(!is_space(s[i + 5]));
    assert(space_run(s, i + 5) == 0);
    assert(space_run(s, i + 4) == 1);
    let name = "name=\"frameratecap\""@;
    assert(fold_char('F') == 'f') by {
        assert(('F' as u32) == 70);
        assert((102u32 as char) == 'f');
    }
    assert(fold_char('C') == 'c') by {
        assert(('C' as u32) == 67);
        assert((99u32 as char) == 'c');
    }
    assert(s.subrange(i + 5, i + 24).map_values(|c: char| fold_char(c)) =~= name.map_values(|c: char| fold_char(c))) by {
        assert forall|q: int| 0 <= q < 19 implies fold_char(#[trigger] s.subrange(i + 5, i + 24)[q]) == fold_char(name[q]) by {
            assert(s.subrange(i + 5, i + 24)[q] == s[i + (q + 5)]);
            assert(s[i + (q + 5)] == e[q + 5]);
        }
    }
    assert(s[i + 24] == e[24]);
    assert(space_run(s, i + 24) == 0);
    assert forall|q: int| i + 25 <= q < i + 25 + d.len() implies is_decimal(#[trigger] s[q]) by {
        assert(s[i + (q - i)] == e[q - i]);
        assert(e[q - i] == d[q - i - 25]);
    }
    assert(s[i + (25 + d.len())] == e[25 + d.len() as int]);
    lemma_decimal_run_exact(s, i + 25, d.len() as int);
    let d1 = i + 25 + d.len();
    assert(s.subrange(d1, d1 + 6) =~= "</int>"@) by {
        assert forall|q: int| 0 <= q < 6 implies s.subrange(d1, d1 + 6)[q] == "</int>"@[q] by {
            assert(s[i + (25 + d.len() + q)] == e[25 + d.len() + q]);
        }
    }
}

/// Reading back a written frame-rate cap gives the cap: after a write of a
/// non-negative cap to a settings file that has a frame-rate element or an
/// `</Item>` to put one before, the read finds the written value.
#[verifier::rlimit(50)]
#[verifier::spinoff_prover]
pub proof fn law_fps_write_then_read(xml: Seq<char>, value: i64)
    requires
        value >= 0,
        first_cap_tag(xml, 0) is Some || first_item_end(xml, 0) is Some,
    ensures
        fps_read_spec(Some(fps_xml_spec(xml, value))) == value,
{
    reveal_strlit("\t\t");
    reveal_strlit("\n</Item>");
    reveal_strlit("</Item>");
    let e = cap_element(value);
    let d = decimal(value as nat);
    lemma_decimal_digits(value as nat);
    lemma_first_cap_tag_facts(xml, 0);
    let new = fps_xml_spec(xml, value);
    let (at, m) = match first_cap_tag(xml, 0) {
        Some((i, a, b)) => (i, i),
        None => (first_item_end(xml, 0)->0 + 2, first_item_end(xml, 0)->0),
    };
    match first_cap_tag(xml, 0) {
        Some((i, a, b)) => {
            assert(new == xml.subrange(0, i) + e + xml.subrange(b + 6, xml.len() as int));
            assert(new.subrange(at, at + e.len()) =~= e);
        },
        None => {
            let j = first_item_end(xml, 0)->0;
            lemma_first_item_end(xml, 0);
            assert(new == xml.subrange(0, j) + "\t\t"@ + e + "\n</Item>"@ + xml.subrange(j + 7, xml.len() as int));
            assert(new.subrange(at, at + e.len()) =~= e);
            assert(new[j] == '\t' && new[j + 1] == '\t');
        },
    }
    assert(new.subrange(0, m) =~= xml.subrange(0, m));
    lemma_element_found(new, at, value);
    reveal_strlit("<int name=\"FramerateCap\">");
    assert(new.subrange(at, at + e.len())[0] == new[at]);
    assert(new.subrange(at, at + e.len())[1] == new[at + 1]);
    assert(e[0] == '<' && e[1] == 'i');
    assert forall|k: int| 0 <= k < at implies (#[trigger] cap_tag_at(new, k)) is None by {
        if cap_tag_at(new, k) is Some {
            let b = cap_end(new, k);
            if b + 6 <= m {
                lemma_tag_agree(xml, new, k, m);
                if k < m {
                    match first_cap_tag(xml, 0) {
                        Some((i, a, bb)) => {
                            assert(cap_tag_at(xml, k) is None);
                        },
                        None => {
                            assert(cap_tag_at(xml, k) is None);
                        },
                    }
                }
            } else {
                match first_cap_tag(xml, 0) {
                    Some((i, a, bb)) => {
                        lemma_no_open_inside(new, k, at);
                    },
                    None => {
                        reveal_strlit("<int");
                        if k >= m {
                            lemma_nocase_chars(new, k, "<int"@);
                            assert(fold_char(new[k + 0]) == fold_char("<int"@[0]));
                            assert(fold_char('\t') == '\t');
                        } else {
                            lemma_no_tabs_inside(new, k, m);
                        }
                    },
                }
            }
        }
    }
    lemma_first_cap_tag_at(new, 0, at);
    assert(new.subrange(at + 25, at + 25 + d.len()) =~= d) by {
        assert forall|q: int| 0 <= q < d.len() implies new.subrange(at + 25, at + 25 + d.len())[q] == d[q] by {
            assert(new.subrange(at, at + e.len())[25 + q] == e[25 + q]);
        }
    }
}

proof fn lemma_first_item_end(s: Seq<char>, i0: int)
    requires
        0 <= i0,
    ensures
        first_item_end(s, i0) matches Some(j) ==> i0 <= j && j + 7 <= s.len() && s.subrange(j, j + 7) == "</Item>"@,
    decreases s.len() - i0,
{
    reveal_strlit("</Item>");
    if i0 < s.len() {
        lemma_first_item_end(s, i0 + 1);
    }
}

proof fn lemma_member_value_tail(x: Members, name: Seq<char>)
    requires
        x.len() > 0,
        x[0].0 != name,
    ensures
        member_value(x, name) == member_value(x.drop_first(), name),
{
    lemma_member_index_bound(x.drop_first(), name);
    match member_index(x.drop_first(), name) {
        Some(i) => {
            assert(x[i + 1] == x.drop_first()[i]);
        },
        None => {},
    }
}

proof fn lemma_without_key_value(f: Members, k: Seq<char>, name: Seq<char>)
    requires
        name != k,
    ensures
        member_value(without_key(f, k), name) == member_value(f, name),
    decreases f.len(),
{
    if f.len() > 0 {
        lemma_without_key_value(f.drop_first(), k, name);
        let rest = without_key(f.drop_first(), k);
        let w = without_key(f, k);
        if f[0].0 == k {
            assert(w =~= rest);
            lemma_member_value_tail(f, name);
        } else {
            assert(w =~= seq![f[0]] + rest);
            assert(w[0] == f[0]);
            if f[0].0 != name {
                assert(w.drop_first() =~= rest);
                lemma_member_value_tail(w, name);
                lemma_member_value_tail(f, name);
            }
        }
    }
}

proof fn lemma_with_member_value(f: Members, k: Seq<char>, v: Json, name: Seq<char>)
    requires
        name != k,
    ensures
        member_value(with_member(f, k, v), name) == member_value(f, name),
{
    lemma_member_index_bound(f, k);
    lemma_member_index_bound(f, name);
    let g = with_member(f, k, v);
    lemma_member_index_bound(g, name);
    assert forall|j: int| 0 <= j < g.len() && (#[trigger] g[j]).0 == name implies j < f.len() && g[j] == f[j] by {
        match member_index(f, k) {
            Some(i) => {
                if j == i {
                    assert(g[j].0 == k);
                }
            },
            None => {
                if j == f.len() {
                    assert(g[j].0 == k);
                }
            },
        }
    }
    match member_index(f, name) {
        Some(i0) => {
            assert(g[i0] == f[i0]) by {
                match member_index(f, k) {
                    Some(i) => {
                        assert(i != i0);
                    },
                    None => {},
                }
            }
            assert forall|j: int| 0 <= j < i0 implies (#[trigger] g[j]).0 != name by {
                if g[j].0 == name {
                    assert(g[j] == f[j]);
                }
            }
            lemma_member_first(g, name, i0);
        },
        None => {
            match member_index(g, name) {
                Some(i) => {
                    assert(g[i] == f[i]);
                },
                None => {},
            }
        },
    }
}

proof fn lemma_merged_value(f: Members, data: Members, name: Seq<char>)
    requires
        forall|m: (Seq<char>, Json)| data.contains(m) ==> m.0 != name,
    ensures
        member_value(merged(f, data), name) == member_value(f, name),
    decreases data.len(),
{
    if data.len() > 0 {
        assert(data.contains(data[0]));
        lemma_with_member_value(f, data[0].0, data[0].1, name);
        assert forall|m: (Seq<char>, Json)| data.drop_first().contains(m) implies m.0 != name by {
            let t = choose|t: int| 0 <= t < data.drop_first().len() && data.drop_first()[t] == m;
            assert(data[t + 1] == m);
            assert(data.contains(m));
        }
        lemma_merged_value(with_member(f, data[0].0, data[0].1), data.drop_first(), name);
    }
}

/// A settings save never takes key material from what was submitted: the
/// saved `customKey`, `customKeyEnc` and `keyVerifier` are the stored ones.
pub proof fn law_settings_save_keeps_key_material(stored: Members, submitted: Members, name: Seq<char>)
    requires
        name == "customKey"@ || name == "customKeyEnc"@ || name == "keyVerifier"@,
    ensures
        member_value(saved_settings_spec(stored, submitted), name) == member_value(stored, name),
{
    reveal_strlit("customKey");
    reveal_strlit("customKeyEnc");
    reveal_strlit("keyVerifier");
    reveal_strlit("webhook");
    reveal_strlit("screenshotsEnabled");
    assert(name != "webhook"@) by {
        assert(name[0] != "webhook"@[0]);
    }
    assert(name != "screenshotsEnabled"@) by {
        assert(name[0] != "screenshotsEnabled"@[0]);
    }
    let a = without_key(submitted, "customKey"@);
    let b = without_key(a, "customKeyEnc"@);
    let c = without_key(b, "keyVerifier"@);
    lemma_without_key(submitted, "customKey"@);
    lemma_without_key(a, "customKeyEnc"@);
    lemma_without_key(b, "keyVerifier"@);
    assert forall|m: (Seq<char>, Json)| c.contains(m) implies m.0 != name by {}
    let base = without_key(without_key(stored, "webhook"@), "screenshotsEnabled"@);
    lemma_merged_value(base, c, name);
    lemma_without_key_value(without_key(stored, "webhook"@), "screenshotsEnabled"@, name);
    lemma_without_key_value(stored, "webhook"@, name);
}

/// Setting a member and reading it back gives the value set, and leaves
/// every other member as it was.
pub proof fn law_set_member_then_read(fields: Members, key: Seq<char>, v: Json, other: Seq<char>)
    ensures
        member_value(with_member(fields, key, v), key) == Some(v),
        other != key ==> member_value(with_member(fields, key, v), other) == member_value(fields, other),
{
    lemma_member_index_bound(fields, key);
    let g = with_member(fields, key, v);
    match member_index(fields, key) {
        Some(i) => {
            assert forall|j: int| 0 <= j < i implies (#[trigger] g[j]).0 != key by {
                assert(g[j] == fields[j]);
            }
            lemma_member_first(g, key, i);
        },
        None => {
            assert forall|j: int| 0 <= j < fields.len() implies (#[trigger] g[j]).0 != key by {
                assert(g[j] == fields[j]);
            }
            lemma_member_first(g, key, fields.len() as int);
        },
    }
    if other != key {
        lemma_with_member_value(fields, key, v, other);
    }
}

/// No two members share a name.
pub open spec fn names_distinct(fields: Members) -> bool {
    forall|i: int, j: int| 0 <= i < j < fields.len() ==> #[trigger] fields[i].0 != #[trigger] fields[j].0
}

proof fn lemma_without_key_from(fields: Members, key: Seq<char>)
    ensures
        forall|a: int| 0 <= a < without_key(fields, key).len() ==> exists|b: int|
            0 <= b < fields.len() && #[trigger] without_key(fields, key)[a] == fields[b],
        names_distinct(fields) ==> names_distinct(without_key(fields, key)),
    decreases fields.len(),
{
    if fields.len() > 0 {
        let rest = fields.drop_first();
        lemma_without_key_from(rest, key);
        let tail = without_key(rest, key);
        let head = if fields[0].0 == key {
            Seq::<(Seq<char>, Json)>::empty()
        } else {
            seq![fields[0]]
        };
        let w = without_key(fields, key);
        assert(w == head + tail);
        assert forall|a: int| 0 <= a < w.len() implies exists|b: int| 0 <= b < fields.len() && #[trigger] w[a] == fields[b] by {
            if a < head.len() {
                assert(w[a] == fields[0]);
            } else {
                let b = choose|b: int| 0 <= b < rest.len() && tail[a - head.len()] == rest[b];
                assert(w[a] == fields[b + 1]);
            }
        }
        if names_distinct(fields) {
            assert(names_distinct(rest)) by {
                assert forall|i: int, j: int| 0 <= i < j < rest.len() implies #[trigger] rest[i].0 != #[trigger] rest[j].0 by {
                    assert(rest[i] == fields[i + 1] && rest[j] == fields[j + 1]);
                }
            }
            assert forall|i: int, j: int| 0 <= i < j < w.len() implies #[trigger] w[i].0 != #[trigger] w[j].0 by {
                if i < head.len() {
                    let b = choose|b: int| 0 <= b < rest.len() && tail[j - head.len()] == rest[b];
                    assert(w[j] == fields[b + 1]);
                    assert(w[i] == fields[0]);
                } else {
                    assert(w[i] == tail[i - head.len()] && w[j] == tail[j - head.len()]);
                }
            }
        }
    }
}

proof fn lemma_merged_distinct(fields: Members, data: Members)
    requires
        names_distinct(fields),
    ensures
        names_distinct(merged(fields, data)),
    decreases data.len(),
{
    if data.len() > 0 {
        lemma_with_member_distinct(fields, data[0].0, data[0].1);
        lemma_merged_distinct(with_member(fields, data[0].0, data[0].1), data.drop_first());
    }
}

/// Edits keep member names distinct: setting a member, dropping every
/// member of a name, merging in other members, and the settings shown to the
/// interface, made from members with distinct names, have distinct names too.
pub proof fn law_edits_keep_names_distinct(fields: Members, key: Seq<char>, v: Json, data: Members, key_set: bool)
    requires
        names_distinct(fields),
    ensures
        names_distinct(with_member(fields, key, v)),
        names_distinct(without_key(fields, key)),
        names_distinct(merged(fields, data)),
        names_distinct(settings_view_spec(fields, key_set)),
{
    lemma_merged_distinct(fields, data);
    lemma_with_member_distinct(fields, key, v);
    lemma_without_key_from(fields, key);
    let a = without_key(fields, "customKeyEnc"@);
    lemma_without_key_from(fields, "customKeyEnc"@);
    let b = without_key(a, "customKey"@);
    lemma_without_key_from(a, "customKey"@);
    let c = without_key(b, "keyVerifier"@);
    lemma_without_key_from(b, "keyVerifier"@);
    let d = without_key(c, "_deviceKey"@);
    lemma_without_key_from(c, "_deviceKey"@);
    lemma_with_member_distinct(d, "keySet"@, Json::Bool(key_set));
}

proof fn lemma_with_member_distinct(fields: Members, key: Seq<char>, v: Json)
    requires
        names_distinct(fields),
    ensures
        names_distinct(with_member(fields, key, v)),
{
    lemma_member_index_bound(fields, key);
    let g = with_member(fields, key, v);
    match member_index(fields, key) {
        Some(k) => {
            assert forall|i: int, j: int| 0 <= i < j < g.len() implies #[trigger] g[i].0 != #[trigger] g[j].0 by {
                assert(g[i].0 == fields[i].0 && g[j].0 == fields[j].0);
            }
        },
        None => {
            assert forall|i: int, j: int| 0 <= i < j < g.len() implies #[trigger] g[i].0 != #[trigger] g[j].0 by {
                if j == fields.len() {
                    assert(g[i] == fields[i]);
                } else {
                    assert(g[i] == fields[i] && g[j] == fields[j]);
                }
            }
        },
    }
}

} // verus!
