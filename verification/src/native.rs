//! What the launcher reads out of the Windows process tools and the native
//! helper: process counts and ids in `tasklist` output, the anti-AFK and
//! volume helpers' reports, memory-trim bookkeeping, launch pacing, and the
//! install layout of the game client.

use vstd::prelude::*;
use crate::json::{Json, json_get, json_str, json_i64, get_str, str_eq};
use crate::text::{
    chars_of, owned, concat2, concat3, push_str, push_char, string_of_range, trim, trim_str,
    occurs_at, occurs_at_exec, has_prefix, starts_with_str, strip_prefix_spec, strip_prefix_str,
    lower_ascii, lower_ascii_char, decimal_run, decimal_run_end, space_run, space_run_end,
    parse_unsigned, parse_unsigned_bounded, contains_seq, str_contains,
};
use crate::version::{decimal, signed_decimal, i64_text};
use crate::watch::WatchState;
use crate::paths::{join_spec, join_path};

verus! {

/// The game client's executable.
pub const PLAYER_EXE: &'static str = "RobloxPlayerBeta.exe";

/// How long the anti-AFK helper waits between taps when no usable interval
/// is configured: 19 minutes, just under the idle kick (seconds).
pub const DEFAULT_AFK_INTERVAL_SECS: i64 = 1140;

/// Minimum time between two launches (ms).
pub const LAUNCH_STAGGER_MS: i64 = 4000;

// ---------------------------------------------------------------------------
// case-insensitive matching
// ---------------------------------------------------------------------------

/// The character a case-insensitive match compares, for patterns made of
/// ASCII letters, digits and punctuation: ASCII letters fold to lower case,
/// and the two non-ASCII letters that fold into ASCII ones (the long s and
/// the Kelvin sign) fold to `s` and `k`.
pub open spec fn fold_char(c: char) -> char {
    if c == '\u{17f}' {
        's'
    } else if c == '\u{212a}' {
        'k'
    } else {
        lower_ascii(c)
    }
}

pub fn fold_char_exec(c: char) -> (r: char)
    ensures
        r == fold_char(c),
{
    if c == '\u{17f}' {
        's'
    } else if c == '\u{212a}' {
        'k'
    } else {
        lower_ascii_char(c)
    }
}

/// Whether `pat` occurs in `s` at `i`, letters compared without case.
pub open spec fn occurs_nocase(s: Seq<char>, i: int, pat: Seq<char>) -> bool {
    &&& 0 <= i
    &&& i + pat.len() <= s.len()
    &&& s.subrange(i, i + pat.len()).map_values(|c: char| fold_char(c)) == pat.map_values(
        |c: char| fold_char(c),
    )
}

pub fn occurs_nocase_exec(s: &Vec<char>, i: usize, pat: &Vec<char>) -> (r: bool)
    ensures
        r == occurs_nocase(s@, i as int, pat@),
{
    if i > s.len() || pat.len() > s.len() - i {
        return false;
    }
    let ghost a = s@.subrange(i as int, i + pat@.len()).map_values(|c: char| fold_char(c));
    let ghost b = pat@.map_values(|c: char| fold_char(c));
    let mut k: usize = 0;
    while k < pat.len()
        invariant
            i + pat.len() <= s.len(),
            k <= pat.len(),
            a == s@.subrange(i as int, i + pat@.len()).map_values(|c: char| fold_char(c)),
            b == pat@.map_values(|c: char| fold_char(c)),
            forall|j: int| 0 <= j < k ==> a[j] == b[j],
        decreases pat.len() - k,
    {
        if fold_char_exec(s[i + k]) != fold_char_exec(pat[k]) {
            assert(a[k as int] == fold_char(s@[i + k]));
            assert(a[k as int] != b[k as int]);
            return false;
        }
        assert(a[k as int] == fold_char(s@[i + k]));
        k = k + 1;
    }
    assert(a =~= b);
    true
}

// ---------------------------------------------------------------------------
// tasklist output
// ---------------------------------------------------------------------------

/// Matches of the game executable's name (any case) in `s` from `i` on,
/// counted the way a left-to-right scan for non-overlapping matches does.
pub open spec fn player_name_count_from(s: Seq<char>, i: int) -> nat
    decreases s.len() - i,
{
    if i < 0 || i + 20 > s.len() {
        0
    } else if occurs_nocase(s, i, "robloxplayerbeta.exe"@) {
        1 + player_name_count_from(s, i + 20)
    } else {
        player_name_count_from(s, i + 1)
    }
}

/// The number of game clients in the output of the process listing: the
/// occurrences of `RobloxPlayerBeta.exe`, in any case (a listing that could
/// not be taken is passed as empty text).
pub fn count_roblox_processes(tasklist_out: &str) -> (r: u32)
    ensures
        r == player_name_count_from(tasklist_out@, 0) as u32,
{
    let s = chars_of(tasklist_out);
    let pat = chars_of("robloxplayerbeta.exe");
    proof {
        reveal_strlit("robloxplayerbeta.exe");
    }
    let mut n: usize = 0;
    let mut i: usize = 0;
    while i <= s.len() && s.len() - i >= 20
        invariant
            i <= s.len() + 20,
            pat@ == "robloxplayerbeta.exe"@,
            pat@.len() == 20,
            n <= i,
            n + player_name_count_from(s@, i as int) == player_name_count_from(s@, 0),
        decreases s.len() + 20 - i,
    {
        if occurs_nocase_exec(&s, i, &pat) {
            n = n + 1;
            i = i + 20;
        } else {
            i = i + 1;
        }
    }
    assert(player_name_count_from(s@, i as int) == 0);
    n as u32
}

/// Whether any game client or crash handler shows up (any case) in the
/// output of the process listing.
pub open spec fn any_roblox_process(s: Seq<char>) -> bool {
    exists|i: int|
        occurs_nocase(s, i, "robloxplayerbeta.exe"@) || occurs_nocase(
            s,
            i,
            "robloxcrashhandler.exe"@,
        )
}

/// Decides whether to keep waiting for the game to close, from one listing.
pub fn roblox_still_running(tasklist_out: &str) -> (r: bool)
    ensures
        r == any_roblox_process(tasklist_out@),
{
    let s = chars_of(tasklist_out);
    let p1 = chars_of("robloxplayerbeta.exe");
    let p2 = chars_of("robloxcrashhandler.exe");
    proof {
        reveal_strlit("robloxplayerbeta.exe");
        reveal_strlit("robloxcrashhandler.exe");
    }
    let mut i: usize = 0;
    while i < s.len()
        invariant
            i <= s.len(),
            s@ == tasklist_out@,
            p1@ == "robloxplayerbeta.exe"@,
            p2@ == "robloxcrashhandler.exe"@,
            forall|j: int|
                0 <= j < i ==> !occurs_nocase(s@, j, "robloxplayerbeta.exe"@) && !occurs_nocase(
                    s@,
                    j,
                    "robloxcrashhandler.exe"@,
                ),
        decreases s.len() - i,
    {
        if occurs_nocase_exec(&s, i, &p1) || occurs_nocase_exec(&s, i, &p2) {
            assert(occurs_nocase(s@, i as int, "robloxplayerbeta.exe"@) || occurs_nocase(
                s@,
                i as int,
                "robloxcrashhandler.exe"@,
            ));
            return true;
        }
        i = i + 1;
    }
    proof {
        assert forall|j: int|
            !(occurs_nocase(s@, j, "robloxplayerbeta.exe"@) || occurs_nocase(
                s@,
                j,
                "robloxcrashhandler.exe"@,
            )) by {
            if j >= s@.len() {
                assert(!occurs_nocase(s@, j, "robloxplayerbeta.exe"@));
            }
        }
    }
    false
}

/// The process ids in the CSV listing from `i` on: each non-overlapping
/// `"RobloxPlayerBeta.exe","<digits>"`, left to right, whose digits read as a
/// `u32` (others are skipped).
pub open spec fn pids_from(s: Seq<char>, i: int) -> Seq<u32>
    decreases s.len() - i,
{
    if i < 0 || i >= s.len() {
        Seq::<u32>::empty()
    } else {
        let c = i + 24;
        let n = decimal_run(s, c);
        if occurs_at(s, i, "\"RobloxPlayerBeta.exe\",\""@) && n > 0 && c + n < s.len() && s[c + n]
            == '"' {
            let rest = pids_from(s, c + n + 1);
            match parse_unsigned(s.subrange(c, c + n)) {
                Some(v) => if v <= u32::MAX {
                    seq![v as u32] + rest
                } else {
                    rest
                },
                None => rest,
            }
        } else {
            pids_from(s, i + 1)
        }
    }
}

/// The ids of the game clients in the CSV output of the process listing, in
/// the order listed.
pub fn player_pids(tasklist_out: &str) -> (r: Vec<u32>)
    ensures
        r@ == pids_from(tasklist_out@, 0),
{
    let s = chars_of(tasklist_out);
    let pat = chars_of("\"RobloxPlayerBeta.exe\",\"");
    proof {
        reveal_strlit("\"RobloxPlayerBeta.exe\",\"");
    }
    let mut r: Vec<u32> = Vec::new();
    let mut i: usize = 0;
    while i < s.len()
        invariant
            i <= s.len(),
            pat@ == "\"RobloxPlayerBeta.exe\",\""@,
            pat@.len() == 24,
            r@ + pids_from(s@, i as int) == pids_from(s@, 0),
        decreases s.len() - i,
    {
        let ghost before = r@;
        if occurs_at_exec(&s, i, &pat) {
            let c = i + 24;
            let e = decimal_run_end(&s, c);
            if e > c && e < s.len() && s[e] == '"' {
                let digits = string_of_range(&s, c, e);
                let dv = chars_of(digits.as_str());
                match parse_unsigned_bounded(&dv, u32::MAX as u64) {
                    Some(v) => {
                        r.push(v as u32);
                        assert(before + pids_from(s@, i as int) =~= r@ + pids_from(s@, e + 1));
                    },
                    None => {},
                }
                i = e + 1;
                continue;
            }
        }
        i = i + 1;
    }
    assert(r@ + pids_from(s@, i as int) =~= r@);
    r
}

// ---------------------------------------------------------------------------
// memory trimming
// ---------------------------------------------------------------------------

/// Asks the OS to trim a process's working set, as a build without the
/// Windows call has it: nothing is trimmed. A Windows build hands its own
/// trim call to `trim_roblox_memory` and `trim_account_memory`.
pub fn trim_process_memory(pid: u32) -> (r: bool)
    ensures
        !r,
{
    false
}

/// The listed processes that a trim pass touches: those not still inside
/// their launch grace window, in the order listed.
pub open spec fn trim_targets(pids: Seq<u32>, launching: Seq<u32>) -> Seq<u32>
    decreases pids.len(),
{
    if pids.len() == 0 {
        Seq::<u32>::empty()
    } else {
        let r = trim_targets(pids.drop_last(), launching);
        if launching.contains(pids.last()) {
            r
        } else {
            r.push(pids.last())
        }
    }
}

/// How many of the outcomes are `true`.
pub open spec fn count_true(outs: Seq<bool>) -> nat
    decreases outs.len(),
{
    if outs.len() == 0 {
        0
    } else {
        count_true(outs.drop_last()) + if outs.last() {
            1nat
        } else {
            0nat
        }
    }
}

proof fn lemma_count_true_bound(outs: Seq<bool>)
    ensures
        count_true(outs) <= outs.len(),
    decreases outs.len(),
{
    if outs.len() > 0 {
        lemma_count_true_bound(outs.drop_last());
    }
}

/// `outs` are what the trim call returned for each of `pids`, in order.
pub open spec fn trim_outcomes<F: Fn(u32) -> bool>(trim: F, pids: Seq<u32>, outs: Seq<bool>) -> bool {
    &&& outs.len() == pids.len()
    &&& forall|i: int| 0 <= i < pids.len() ==> call_ensures(trim, (pids[i],), #[trigger] outs[i])
}

/// What a trim pass reports.
pub struct TrimReport {
    pub ok: bool,
    pub trimmed: u32,
    pub total: u32,
    pub error: Option<String>,
}

/// One trim pass over the game clients in a process listing (`None` when
/// the listing could not be taken), leaving alone the processes of accounts
/// still launching: each other client is handed to `trim` (the OS call that
/// empties its working set) once, in the order listed; `total` is how many
/// were asked, `trimmed` how many calls succeeded.
pub fn trim_roblox_memory<F: Fn(u32) -> bool>(tasklist_out: Option<&str>, launching: &Vec<u32>, trim: F) -> (r: TrimReport)
    requires
        forall|pid: u32| trim.requires((pid,)),
    ensures
        tasklist_out is None ==> !r.ok && r.trimmed == 0 && r.total == 0 && (r.error matches Some(e)
            && e@ == "tasklist failed"@),
        tasklist_out matches Some(out) ==> r.ok && r.error is None && r.total == trim_targets(
            pids_from(out@, 0),
            launching@,
        ).len() as u32 && exists|outs: Seq<bool>|
            trim_outcomes(trim, trim_targets(pids_from(out@, 0), launching@), outs) && r.trimmed == count_true(
                outs,
            ) as u32,
{
    let out = match tasklist_out {
        None => {
            return TrimReport { ok: false, trimmed: 0, total: 0, error: Some(owned("tasklist failed")) };
        },
        Some(o) => o,
    };
    let pids = player_pids(out);
    let mut total: usize = 0;
    let mut trimmed: usize = 0;
    let ghost mut outs: Seq<bool> = Seq::empty();
    let mut i: usize = 0;
    while i < pids.len()
        invariant
            i <= pids@.len(),
            forall|pid: u32| trim.requires((pid,)),
            total <= i,
            total == trim_targets(pids@.subrange(0, i as int), launching@).len(),
            trim_outcomes(trim, trim_targets(pids@.subrange(0, i as int), launching@), outs),
            trimmed == count_true(outs),
        decreases pids.len() - i,
    {
        assert(pids@.subrange(0, i + 1).drop_last() =~= pids@.subrange(0, i as int));
        let ghost prev = trim_targets(pids@.subrange(0, i as int), launching@);
        let pid = pids[i];
        let mut skip = false;
        let mut k: usize = 0;
        while k < launching.len()
            invariant
                k <= launching@.len(),
                skip <==> exists|j: int| 0 <= j < k && launching@[j] == pid,
            decreases launching.len() - k,
        {
            if launching[k] == pid {
                skip = true;
            }
            k = k + 1;
        }
        assert(skip <==> launching@.contains(pid));
        if !skip {
            proof {
                lemma_count_true_bound(outs);
            }
            total = total + 1;
            let done = trim(pid);
            if done {
                trimmed = trimmed + 1;
            }
            proof {
                let old_outs = outs;
                outs = outs.push(done);
                assert(outs.drop_last() =~= old_outs);
                let next = trim_targets(pids@.subrange(0, i + 1), launching@);
                assert(next == prev.push(pid));
                assert forall|q: int| 0 <= q < next.len() implies call_ensures(trim, (next[q],), #[trigger] outs[q]) by {
                    if q < prev.len() {
                        assert(next[q] == prev[q] && outs[q] == old_outs[q]);
                    }
                }
            }
        }
        i = i + 1;
    }
    assert(pids@.subrange(0, pids@.len() as int) =~= pids@);
    TrimReport { ok: true, trimmed: trimmed as u32, total: total as u32, error: None }
}

/// Trims the game client of one account: `pid` is the process tracked for
/// it (`None` when none is), handed to `trim` once. `total` is 1 when there
/// was a process to trim, `trimmed` 1 when the call succeeded.
pub fn trim_account_memory<F: Fn(u32) -> bool>(pid: Option<u32>, trim: F) -> (r: TrimReport)
    requires
        forall|p: u32| trim.requires((p,)),
    ensures
        pid is None ==> r.ok && r.total == 0 && r.trimmed == 0 && r.error is None,
        pid matches Some(p) ==> r.ok && r.total == 1 && r.error is None && exists|done: bool|
            call_ensures(trim, (p,), done) && r.trimmed == (if done {
                1u32
            } else {
                0u32
            }),
{
    match pid {
        None => TrimReport { ok: true, trimmed: 0, total: 0, error: None },
        Some(p) => {
            let done = trim(p);
            TrimReport { ok: true, trimmed: if done { 1 } else { 0 }, total: 1, error: None }
        },
    }
}

// ---------------------------------------------------------------------------
// installed client versions
// ---------------------------------------------------------------------------

/// One entry of the client versions folder: its name, and when its client
/// executable was last modified (`None` when it has none that can be read).
pub struct VersionEntry {
    pub name: String,
    pub exe_modified: Option<i128>,
}

/// An entry that holds an installed client: named `version-…`, with an
/// executable.
pub open spec fn is_version_candidate(e: VersionEntry) -> bool {
    has_prefix(e.name@, "version-"@) && e.exe_modified is Some
}

/// The newest installed client among `entries`: the candidate with the latest
/// executable, the first listed of those when several tie.
pub fn pick_latest_version(entries: &Vec<VersionEntry>) -> (r: Option<usize>)
    ensures
        r is None <==> forall|j: int| 0 <= j < entries@.len() ==> !is_version_candidate(
            #[trigger] entries@[j],
        ),
        r matches Some(i) ==> {
            &&& i < entries@.len()
            &&& is_version_candidate(entries@[i as int])
            &&& forall|j: int|
                0 <= j < entries@.len() && is_version_candidate(#[trigger] entries@[j])
                    ==> entries@[j].exe_modified.unwrap() <= entries@[i as int].exe_modified.unwrap()
            &&& forall|j: int|
                0 <= j < i && is_version_candidate(#[trigger] entries@[j])
                    ==> entries@[j].exe_modified.unwrap() < entries@[i as int].exe_modified.unwrap()
        },
{
    let prefix = chars_of("version-");
    let mut best: Option<usize> = None;
    let mut best_t: i128 = 0;
    let mut i: usize = 0;
    while i < entries.len()
        invariant
            i <= entries@.len(),
            prefix@ == "version-"@,
            best is None <==> forall|j: int| 0 <= j < i ==> !is_version_candidate(
                #[trigger] entries@[j],
            ),
            best matches Some(b) ==> {
                &&& b < i
                &&& is_version_candidate(entries@[b as int])
                &&& entries@[b as int].exe_modified == Some(best_t)
                &&& forall|j: int|
                    0 <= j < i && is_version_candidate(#[trigger] entries@[j])
                        ==> entries@[j].exe_modified.unwrap() <= best_t
                &&& forall|j: int|
                    0 <= j < b && is_version_candidate(#[trigger] entries@[j])
                        ==> entries@[j].exe_modified.unwrap() < best_t
            },
        decreases entries.len() - i,
    {
        let e = &entries[i];
        let name = chars_of(e.name.as_str());
        let named = occurs_at_exec(&name, 0, &prefix);
        match e.exe_modified {
            Some(t) => {
                if named {
                    let better = match best {
                        None => true,
                        Some(_) => t > best_t,
                    };
                    if better {
                        best = Some(i);
                        best_t = t;
                    }
                }
            },
            None => {},
        }
        i = i + 1;
    }
    best
}

// ---------------------------------------------------------------------------
// helper reports
// ---------------------------------------------------------------------------

/// Where `SET:<digits>` first occurs at or after `i`: the digits.
pub open spec fn set_digits_from(s: Seq<char>, i: int) -> Option<Seq<char>>
    decreases s.len() - i,
{
    if i < 0 || i >= s.len() {
        None
    } else if occurs_at(s, i, "SET:"@) && decimal_run(s, i + 4) > 0 {
        Some(s.subrange(i + 4, i + 4 + decimal_run(s, i + 4)))
    } else {
        set_digits_from(s, i + 1)
    }
}

/// The number of audio sessions the volume helper reports having set: the
/// first `SET:<digits>` read as an `i64`, else 0.
pub open spec fn volume_count_spec(s: Seq<char>) -> i64 {
    match set_digits_from(s, 0) {
        Some(d) => match parse_unsigned(d) {
            Some(v) => if v <= i64::MAX {
                v as i64
            } else {
                0i64
            },
            None => 0i64,
        },
        None => 0i64,
    }
}

pub fn volume_count(helper_out: &str) -> (r: i64)
    ensures
        r == volume_count_spec(helper_out@),
{
    let s = chars_of(helper_out);
    let pat = chars_of("SET:");
    proof {
        reveal_strlit("SET:");
    }
    let mut i: usize = 0;
    while i < s.len()
        invariant
            i <= s.len(),
            s@ == helper_out@,
            pat@ == "SET:"@,
            pat@.len() == 4,
            set_digits_from(s@, 0) == set_digits_from(s@, i as int),
        decreases s.len() - i,
    {
        if occurs_at_exec(&s, i, &pat) {
            let e = decimal_run_end(&s, i + 4);
            if e > i + 4 {
                let d = string_of_range(&s, i + 4, e);
                let dv = chars_of(d.as_str());
                return match parse_unsigned_bounded(&dv, i64::MAX as u64) {
                    Some(v) => v as i64,
                    None => 0,
                };
            }
        }
        i = i + 1;
    }
    0
}

/// The anti-AFK interval in seconds: the `antiAfkInterval` setting when it
/// is an integer of at least 60, else 19 minutes.
pub open spec fn afk_interval_spec(settings: Json) -> i64 {
    let v = match json_i64(json_get(settings, "antiAfkInterval"@)) {
        Some(v) => v,
        None => 0i64,
    };
    if v < 60 {
        DEFAULT_AFK_INTERVAL_SECS
    } else {
        v
    }
}

pub fn antiafk_interval(settings: &Json) -> (r: i64)
    ensures
        r == afk_interval_spec(*settings),
        r >= 60,
{
    proof {
        reveal_strlit("antiAfkInterval");
    }
    let v = match settings.get("antiAfkInterval") {
        Some(j) => match j.as_i64() {
            Some(v) => v,
            None => 0,
        },
        None => 0,
    };
    if v < 60 {
        DEFAULT_AFK_INTERVAL_SECS
    } else {
        v
    }
}

/// The log line for a started anti-AFK helper.
pub fn antiafk_started_message(interval_secs: i64) -> (r: String)
    requires
        interval_secs >= 0,
    ensures
        r@ == "Anti-AFK started (interval: "@ + decimal((interval_secs / 60) as nat) + " min)"@,
{
    let t = i64_text(interval_secs / 60);
    concat3("Anti-AFK started (interval: ", t.as_str(), " min)")
}

/// Where `tapped <spaces><digits><spaces>window` (any case) first occurs at
/// or after `i`: the digits.
pub open spec fn tapped_from(t: Seq<char>, i: int) -> Option<Seq<char>>
    decreases t.len() - i,
{
    if i < 0 || i >= t.len() {
        None
    } else {
        let a = i + 6 + space_run(t, i + 6);
        let b = a + decimal_run(t, a);
        let c = b + space_run(t, b);
        if occurs_nocase(t, i, "tapped"@) && space_run(t, i + 6) > 0 && decimal_run(t, a) > 0
            && space_run(t, b) > 0 && occurs_nocase(t, c, "window"@) {
            Some(t.subrange(a, b))
        } else {
            tapped_from(t, i + 1)
        }
    }
}

/// A line the anti-AFK helper printed, as the launcher logs it.
pub enum AfkLine {
    /// `tapped N window(s)`: the message and N (0 when N is not an `i64`).
    Tapped(String, i64),
    /// Any other text.
    Other(String),
}

pub open spec fn afk_line_spec(line: Seq<char>) -> Option<(Seq<char>, Option<i64>)> {
    let t = trim(line);
    if t.len() == 0 {
        None
    } else {
        match tapped_from(t, 0) {
            Some(n) => Some((
                "Anti-AFK: tapped "@ + n + " Roblox window"@ + (if n == "1"@ {
                    Seq::<char>::empty()
                } else {
                    "s"@
                }),
                Some(
                    match parse_unsigned(n) {
                        Some(v) => if v <= i64::MAX {
                            v as i64
                        } else {
                            0i64
                        },
                        None => 0i64,
                    },
                ),
            )),
            None => Some(("Anti-AFK: "@ + t, None)),
        }
    }
}

fn tapped_digits(t: &Vec<char>) -> (r: Option<String>)
    ensures
        r matches Some(d) ==> tapped_from(t@, 0) == Some(d@),
        r is None ==> tapped_from(t@, 0) is None,
{
    let p1 = chars_of("tapped");
    let p2 = chars_of("window");
    proof {
        reveal_strlit("tapped");
        reveal_strlit("window");
    }
    let mut i: usize = 0;
    while i < t.len()
        invariant
            i <= t.len(),
            p1@ == "tapped"@,
            p2@ == "window"@,
            p1@.len() == 6,
            tapped_from(t@, 0) == tapped_from(t@, i as int),
        decreases t.len() - i,
    {
        if occurs_nocase_exec(t, i, &p1) {
            let a = space_run_end(t, i + 6);
            if a > i + 6 {
                let b = decimal_run_end(t, a);
                if b > a {
                    let c = space_run_end(t, b);
                    if c > b && occurs_nocase_exec(t, c, &p2) {
                        return Some(string_of_range(t, a, b));
                    }
                }
            }
        }
        i = i + 1;
    }
    None
}

/// Reads one line of the anti-AFK helper's output: `None` for a blank line.
pub fn antiafk_line(line: &str) -> (r: Option<AfkLine>)
    ensures
        r is None <==> afk_line_spec(line@) is None,
        r matches Some(AfkLine::Tapped(m, n)) ==> afk_line_spec(line@) == Some((m@, Some(n))),
        r matches Some(AfkLine::Other(m)) ==> afk_line_spec(line@) == Some((m@, None::<i64>)),
{
    let t = trim_str(line);
    let tv = chars_of(t.as_str());
    if tv.len() == 0 {
        return None;
    }
    match tapped_digits(&tv) {
        Some(n) => {
            let nv = chars_of(n.as_str());
            let one = str_eq(n.as_str(), "1");
            let mut m = concat3("Anti-AFK: tapped ", n.as_str(), " Roblox window");
            if !one {
                push_str(&mut m, "s");
            }
            proof {
                reveal_strlit("1");
                reveal_strlit("s");
                if one {
                    assert(m@ =~= "Anti-AFK: tapped "@ + n@ + " Roblox window"@ + Seq::<char>::empty());
                }
            }
            let count: i64 = match parse_unsigned_bounded(&nv, i64::MAX as u64) {
                Some(v) => v as i64,
                None => 0,
            };
            Some(AfkLine::Tapped(m, count))
        },
        None => Some(AfkLine::Other(concat2("Anti-AFK: ", t.as_str()))),
    }
}

/// A line the anti-AFK helper printed to its error stream, as logged:
/// `None` for a blank line.
pub fn antiafk_warning(line: &str) -> (r: Option<String>)
    ensures
        trim(line@).len() == 0 ==> r is None,
        trim(line@).len() > 0 ==> (r matches Some(m) && m@ == "Anti-AFK warning: "@ + trim(line@)),
{
    let t = trim_str(line);
    if t.as_str().unicode_len() == 0 {
        None
    } else {
        Some(concat2("Anti-AFK warning: ", t.as_str()))
    }
}

// ---------------------------------------------------------------------------
// accounts in log lines
// ---------------------------------------------------------------------------

/// The position of the first saved account whose `id` is `account_id`.
pub open spec fn first_with_id(accounts: Seq<Json>, account_id: Seq<char>) -> Option<int>
    decreases accounts.len(),
{
    if accounts.len() == 0 {
        None
    } else if json_str(json_get(accounts[0], "id"@)) == Some(account_id) {
        Some(0)
    } else {
        match first_with_id(accounts.drop_first(), account_id) {
            Some(i) => Some(i + 1),
            None => None,
        }
    }
}

/// The first saved account whose `id` is `account_id`.
pub open spec fn account_with_id(accounts: Seq<Json>, account_id: Seq<char>) -> Option<Json> {
    match first_with_id(accounts, account_id) {
        Some(i) => Some(accounts[i]),
        None => None,
    }
}

pub(crate) proof fn lemma_first_with_id(accounts: Seq<Json>, account_id: Seq<char>)
    ensures
        first_with_id(accounts, account_id) matches Some(i) ==> {
            &&& 0 <= i < accounts.len()
            &&& json_str(json_get(accounts[i], "id"@)) == Some(account_id)
            &&& forall|j: int| 0 <= j < i ==> json_str(json_get(#[trigger] accounts[j], "id"@)) != Some(account_id)
        },
        first_with_id(accounts, account_id) is None ==> forall|j: int|
            0 <= j < accounts.len() ==> json_str(json_get(#[trigger] accounts[j], "id"@)) != Some(account_id),
    decreases accounts.len(),
{
    if accounts.len() > 0 {
        lemma_first_with_id(accounts.drop_first(), account_id);
        assert forall|j: int| 0 < j < accounts.len() implies #[trigger] accounts[j] == accounts.drop_first()[j - 1] by {}
    }
}

/// Finds the first saved account whose `id` is `account_id`.
pub fn find_account(accounts: &Vec<Json>, account_id: &str) -> (r: Option<usize>)
    ensures
        r is None ==> first_with_id(accounts@, account_id@) is None,
        r matches Some(i) ==> i < accounts@.len() && first_with_id(accounts@, account_id@) == Some(
            i as int,
        ),
{
    proof {
        reveal_strlit("id");
    }
    let mut i: usize = 0;
    assert(accounts@.skip(0) =~= accounts@);
    while i < accounts.len()
        invariant
            i <= accounts@.len(),
            forall|j: int| 0 <= j < i ==> json_str(json_get(#[trigger] accounts@[j], "id"@)) != Some(account_id@),
        decreases accounts.len() - i,
    {
        let found = match get_str(&accounts[i], "id") {
            Some(s) => str_eq(s.as_str(), account_id),
            None => false,
        };
        if found {
            proof {
                lemma_first_with_id(accounts@, account_id@);
                match first_with_id(accounts@, account_id@) {
                    Some(k) => {
                        if k < i {
                            assert(json_str(json_get(accounts@[k], "id"@)) != Some(account_id@));
                        }
                        if k > i {
                            assert(json_str(json_get(accounts@[i as int], "id"@)) != Some(account_id@));
                        }
                    },
                    None => {
                        assert(json_str(json_get(accounts@[i as int], "id"@)) != Some(account_id@));
                    },
                }
            }
            return Some(i);
        }
        i = i + 1;
    }
    proof {
        lemma_first_with_id(accounts@, account_id@);
        match first_with_id(accounts@, account_id@) {
            Some(k) => {
                assert(json_str(json_get(accounts@[k], "id"@)) != Some(account_id@));
            },
            None => {},
        }
    }
    None
}

/// The user name saved for an account, if any.
pub open spec fn username_spec(accounts: Seq<Json>, account_id: Seq<char>) -> Option<Seq<char>> {
    match account_with_id(accounts, account_id) {
        Some(a) => json_str(json_get(a, "username"@)),
        None => None,
    }
}

pub fn find_username(accounts: &Vec<Json>, account_id: &str) -> (r: Option<String>)
    ensures
        r matches Some(u) ==> username_spec(accounts@, account_id@) == Some(u@),
        r is None ==> username_spec(accounts@, account_id@) is None,
{
    match find_account(accounts, account_id) {
        Some(i) => get_str(&accounts[i], "username"),
        None => None,
    }
}

/// The user id saved for an account, if any.
pub open spec fn user_id_spec(accounts: Seq<Json>, account_id: Seq<char>) -> Option<Seq<char>> {
    match account_with_id(accounts, account_id) {
        Some(a) => json_str(json_get(a, "userId"@)),
        None => None,
    }
}

pub fn find_user_id(accounts: &Vec<Json>, account_id: &str) -> (r: Option<String>)
    ensures
        r matches Some(u) ==> user_id_spec(accounts@, account_id@) == Some(u@),
        r is None ==> user_id_spec(accounts@, account_id@) is None,
{
    match find_account(accounts, account_id) {
        Some(i) => get_str(&accounts[i], "userId"),
        None => None,
    }
}

/// How an account is named in the log: its user name, else its id.
pub open spec fn display_name_spec(accounts: Seq<Json>, account_id: Seq<char>) -> Seq<char> {
    match username_spec(accounts, account_id) {
        Some(u) => u,
        None => account_id,
    }
}

pub fn display_name(accounts: &Vec<Json>, account_id: &str) -> (r: String)
    ensures
        r@ == display_name_spec(accounts@, account_id@),
{
    match find_username(accounts, account_id) {
        Some(u) => u,
        None => owned(account_id),
    }
}

/// The names joined with `, `.
pub open spec fn join_names(names: Seq<Seq<char>>) -> Seq<char>
    decreases names.len(),
{
    if names.len() == 0 {
        Seq::<char>::empty()
    } else if names.len() == 1 {
        names[0]
    } else {
        join_names(names.drop_last()) + ", "@ + names.last()
    }
}

/// The log line for killing every instance: how many accounts were running
/// and their names (`none` when there were none).
pub fn kill_all_message(running_names: &Vec<String>) -> (r: String)
    ensures
        r@ == "Killed all Roblox instances ("@ + decimal(running_names@.len()) + " running: "@ + (if running_names@.len() == 0 {
            "none"@
        } else {
            join_names(running_names@.map_values(|n: String| n@))
        }) + ")"@,
{
    let mut r = owned("Killed all Roblox instances (");
    crate::version::push_decimal(&mut r, running_names.len() as u64);
    push_str(&mut r, " running: ");
    let ghost head = r@;
    let ghost names = running_names@.map_values(|n: String| n@);
    if running_names.len() == 0 {
        push_str(&mut r, "none");
    } else {
        let mut i: usize = 0;
        while i < running_names.len()
            invariant
                i <= running_names@.len(),
                names == running_names@.map_values(|n: String| n@),
                r@ == head + join_names(names.subrange(0, i as int)),
            decreases running_names.len() - i,
        {
            let ghost prev = r@;
            proof {
                reveal_strlit(", ");
            }
            if i > 0 {
                push_str(&mut r, ", ");
            }
            push_str(&mut r, running_names[i].as_str());
            proof {
                let sub = names.subrange(0, i + 1);
                assert(sub.drop_last() =~= names.subrange(0, i as int));
                assert(sub.last() == running_names@[i as int]@);
                if i == 0 {
                    assert(r@ =~= head + join_names(sub));
                } else {
                    assert(r@ =~= head + join_names(sub));
                }
            }
            i = i + 1;
        }
        assert(names.subrange(0, names.len() as int) =~= names);
    }
    push_str(&mut r, ")");
    r
}

// ---------------------------------------------------------------------------
// launch pacing
// ---------------------------------------------------------------------------

/// How long a launch at `now` waits so that launches are at least
/// `LAUNCH_STAGGER_MS` apart (ms; 0 when there was no earlier launch or it
/// is long enough ago).
pub fn stagger_wait(last_launch: i64, now: i64) -> (r: u64)
    requires
        i64::MIN <= now - last_launch <= i64::MAX,
        last_launch > 0 && now - last_launch < LAUNCH_STAGGER_MS ==> now - last_launch
            >= LAUNCH_STAGGER_MS - i64::MAX,
    ensures
        r == (if last_launch > 0 && now - last_launch < LAUNCH_STAGGER_MS {
            LAUNCH_STAGGER_MS - (now - last_launch)
        } else {
            0
        }),
        last_launch > 0 ==> (now - last_launch) + r >= LAUNCH_STAGGER_MS,
{
    let since = now - last_launch;
    if last_launch > 0 && since < LAUNCH_STAGGER_MS {
        (LAUNCH_STAGGER_MS - since) as u64
    } else {
        0
    }
}


// ---------------------------------------------------------------------------
// commands run and lines logged
// ---------------------------------------------------------------------------

/// The process-listing command for one image name, in CSV without headers.
pub fn tasklist_command(image: &str) -> (r: String)
    ensures
        r@ == "tasklist /FI \"IMAGENAME eq "@ + image@ + "\" /FO CSV /NH"@,
{
    concat3("tasklist /FI \"IMAGENAME eq ", image, "\" /FO CSV /NH")
}

/// The command that kills one process and its children.
pub fn taskkill_pid_command(pid: u32) -> (r: String)
    ensures
        r@ == "taskkill /F /PID "@ + decimal(pid as nat) + " /T"@,
{
    let mut r = owned("taskkill /F /PID ");
    crate::version::push_decimal(&mut r, pid as u64);
    push_str(&mut r, " /T");
    r
}

/// The listed ids, each once, in the order first listed.
pub open spec fn distinct_spec(pids: Seq<u32>) -> Seq<u32>
    decreases pids.len(),
{
    if pids.len() == 0 {
        Seq::<u32>::empty()
    } else {
        let before = distinct_spec(pids.drop_last());
        if before.contains(pids.last()) {
            before
        } else {
            before.push(pids.last())
        }
    }
}

/// The live game processes, each once (how many run is its length).
pub fn distinct_pids(pids: &Vec<u32>) -> (r: Vec<u32>)
    ensures
        r@ == distinct_spec(pids@),
{
    let mut r: Vec<u32> = Vec::new();
    let mut i: usize = 0;
    while i < pids.len()
        invariant
            i <= pids@.len(),
            r@ == distinct_spec(pids@.subrange(0, i as int)),
        decreases pids.len() - i,
    {
        let p = pids[i];
        assert(pids@.subrange(0, i + 1).drop_last() =~= pids@.subrange(0, i as int));
        let mut seen = false;
        let mut k: usize = 0;
        while k < r.len()
            invariant
                k <= r@.len(),
                seen <==> exists|j: int| 0 <= j < k && r@[j] == p,
            decreases r.len() - k,
        {
            if r[k] == p {
                seen = true;
            }
            k = k + 1;
        }
        assert(seen <==> r@.contains(p));
        if !seen {
            r.push(p);
        }
        i = i + 1;
    }
    assert(pids@.subrange(0, pids@.len() as int) =~= pids@);
    r
}

/// The log line for a launch given up for want of a CSRF token.
pub fn launch_csrf_failed_log(name: &str) -> (r: String)
    ensures
        r@ == "Launch failed for "@ + name@ + ": could not get CSRF token (cookie may be expired)"@,
{
    concat3("Launch failed for ", name, ": could not get CSRF token (cookie may be expired)")
}

/// The log line for a launch given up for want of an authentication ticket.
pub fn launch_ticket_failed_log(name: &str, error: &str) -> (r: String)
    ensures
        r@ == "Launch failed for "@ + name@ + ": auth ticket error - "@ + error@,
{
    let mut r = concat3("Launch failed for ", name, ": auth ticket error - ");
    push_str(&mut r, error);
    r
}

/// The error a launch without an authentication ticket reports.
pub fn launch_ticket_error(error: &str) -> (r: String)
    ensures
        r@ == "Failed to get auth ticket: "@ + error@,
{
    concat2("Failed to get auth ticket: ", error)
}

/// The log line for a launch.
pub fn launched_log(name: &str) -> (r: String)
    ensures
        r@ == "Launched Roblox for "@ + name@,
{
    concat2("Launched Roblox for ", name)
}

/// The log line for an account whose client closed unexpectedly.
pub fn crash_log(name: &str) -> (r: String)
    ensures
        r@ == "Roblox closed unexpectedly for "@ + name@ + " (missed "@ + decimal(crate::watch::MISS_THRESHOLD as nat)
            + " consecutive checks)"@,
{
    let mut r = concat3("Roblox closed unexpectedly for ", name, " (missed ");
    crate::version::push_decimal(&mut r, crate::watch::MISS_THRESHOLD as u64);
    push_str(&mut r, " consecutive checks)");
    r
}

/// The log line for killing one account's client.
pub fn kill_one_log(name: &str) -> (r: String)
    ensures
        r@ == "Killed Roblox instance for "@ + name@,
{
    concat2("Killed Roblox instance for ", name)
}

/// Whether a line of the mutex holder's output says the game's singleton
/// mutex is held.
pub fn reports_mutex_held(line: &str) -> (r: bool)
    ensures
        r == contains_seq(line@, "MUTEX_HELD"@),
{
    str_contains(line, "MUTEX_HELD")
}

/// Whether a line of the handle closer's output says it is done.
pub fn reports_handles_done(line: &str) -> (r: bool)
    ensures
        r == contains_seq(line@, "HANDLES_DONE"@),
{
    str_contains(line, "HANDLES_DONE")
}

/// A helper's error-stream line as logged: trimmed, `None` when blank.
pub fn helper_error_line(line: &str) -> (r: Option<String>)
    ensures
        trim(line@).len() == 0 ==> r is None,
        trim(line@).len() > 0 ==> (r matches Some(t) && t@ == trim(line@)),
{
    let t = trim_str(line);
    if t.as_str().unicode_len() == 0 {
        None
    } else {
        Some(t)
    }
}

/// The compiler arguments that build the native helper from its source.
pub fn csc_arguments(out_exe: &str, source: &str) -> (r: Vec<String>)
    ensures
        r@.map_values(|a: String| a@) == seq![
            "/nologo"@,
            "/optimize+"@,
            "/platform:x64"@,
            "/target:exe"@,
            "/out:"@ + out_exe@,
            source@,
        ],
{
    let mut r: Vec<String> = Vec::new();
    r.push(owned("/nologo"));
    r.push(owned("/optimize+"));
    r.push(owned("/platform:x64"));
    r.push(owned("/target:exe"));
    r.push(concat2("/out:", out_exe));
    r.push(owned(source));
    assert(r@.map_values(|a: String| a@) =~= seq![
        "/nologo"@,
        "/optimize+"@,
        "/platform:x64"@,
        "/target:exe"@,
        "/out:"@ + out_exe@,
        source@,
    ]);
    r
}

/// One crash-watch poll from a process listing (`None` when the listing
/// could not be taken): a failed listing changes nothing, so no account is
/// charged a miss for it; otherwise the live game processes, each once, are
/// checked (see `WatchState::tick`). Gives back the closed accounts and how
/// many game processes run.
pub fn watch_poll(w: &mut WatchState, listing: Option<&str>, now: i64) -> (r: Option<(Vec<String>, usize)>)
    requires
        old(w).wf(),
    ensures
        final(w).wf(),
        listing is None ==> r is None && *final(w) == *old(w),
        listing matches Some(out) ==> (r matches Some(p) && old(w).ticked(
            distinct_spec(pids_from(out@, 0)),
            now,
            *final(w),
            p.0@,
        ) && p.1 == distinct_spec(pids_from(out@, 0)).len()),
{
    match listing {
        None => None,
        Some(out) => {
            let alive = distinct_pids(&player_pids(out));
            let closed = w.tick(&alive, now);
            Some((closed, alive.len()))
        },
    }
}

// ---------------------------------------------------------------------------
// install layout
// ---------------------------------------------------------------------------

/// The folder holding the installed game client versions.
pub fn roblox_versions_dir(home: &str) -> (r: String)
    ensures
        r@ == join_spec(
            join_spec(join_spec(join_spec(home@, "AppData"@), "Local"@), "Roblox"@),
            "Versions"@,
        ),
{
    let a = join_path(home, "AppData");
    let b = join_path(a.as_str(), "Local");
    let c = join_path(b.as_str(), "Roblox");
    let d = join_path(c.as_str(), "Versions");
    d
}

/// The fast-flag file of an installed client version.
pub fn get_fflag_path(version_dir: &str) -> (r: String)
    ensures
        r@ == join_spec(join_spec(version_dir@, "ClientSettings"@), "ClientAppSettings.json"@),
{
    let a = join_path(version_dir, "ClientSettings");
    join_path(a.as_str(), "ClientAppSettings.json")
}

/// The client executable of an installed version.
pub fn player_exe_path(version_dir: &str) -> (r: String)
    ensures
        r@ == join_spec(version_dir@, "RobloxPlayerBeta.exe"@),
{
    join_path(version_dir, "RobloxPlayerBeta.exe")
}

/// `p` without an extended-length `\\?\` prefix.
pub open spec fn strip_verbatim_spec(p: Seq<char>) -> Seq<char> {
    match strip_prefix_spec(p, "\\\\?\\"@) {
        Some(rest) => rest,
        None => p,
    }
}

/// Drops the extended-length `\\?\` prefix that resource paths come with, which
/// older command-line tools cannot read.
pub fn strip_verbatim_prefix(p: &str) -> (r: String)
    ensures
        r@ == strip_verbatim_spec(p@),
{
    match strip_prefix_str(p, "\\\\?\\") {
        Some(rest) => rest,
        None => owned(p),
    }
}

/// The helper's bundled source or executable under the resource directory.
pub fn native_resource_path(resource_dir: &str, file: &str) -> (r: String)
    ensures
        r@ == join_spec(join_spec(strip_verbatim_spec(resource_dir@), "resources"@), file@),
{
    let d = strip_verbatim_prefix(resource_dir);
    let a = join_path(d.as_str(), "resources");
    join_path(a.as_str(), file)
}

} // verus!
