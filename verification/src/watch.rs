//! Crash watching of launched accounts: which accounts are watched (with the
//! end of their launch grace window and their count of consecutive missed
//! checks), which game process each one owns, and what one poll of the
//! process list decides.

use vstd::prelude::*;
use crate::assoc::Assoc;

verus! {

/// Consecutive missed checks after which a watched account counts as closed.
pub const MISS_THRESHOLD: u32 = 6;

/// Grace window after a launch during which an account is not checked (ms).
pub const LAUNCH_DELAY_MS: i64 = 15000;

/// Whether the account counts as running: its tracked process is alive, or,
/// with no tracked process, any game process is alive at all.
pub open spec fn is_running(pid: Option<u32>, alive: Seq<u32>) -> bool {
    match pid {
        Some(p) => alive.contains(p),
        None => alive.len() > 0,
    }
}

/// The tracked process of `id`, if any.
pub open spec fn pid_of(pids: Map<Seq<char>, u32>, id: Seq<char>) -> Option<u32> {
    if pids.dom().contains(id) {
        Some(pids[id])
    } else {
        None
    }
}

/// One watched account's check, given its tracked process and the untracked
/// live processes still available for adoption: its new miss count, whether
/// it is now closed, the new process table and the orphans left.
pub open spec fn step(
    id: Seq<char>,
    ready_at: i64,
    misses: u32,
    pids: Map<Seq<char>, u32>,
    orphans: Seq<u32>,
    alive: Seq<u32>,
    now: i64,
) -> (u32, bool, Map<Seq<char>, u32>, Seq<u32>) {
    if now < ready_at {
        (misses, false, pids, orphans)
    } else {
        let pid = pid_of(pids, id);
        if is_running(pid, alive) {
            (0u32, false, pids, orphans)
        } else if pid is Some && orphans.len() > 0 {
            (0u32, false, pids.insert(id, orphans[0]), orphans.drop_first())
        } else {
            let m = (misses + 1) as u32;
            (m, m >= MISS_THRESHOLD, pids, orphans)
        }
    }
}

/// The checks of all watched accounts in order: new miss counts, closed
/// flags, the final process table and the orphans left.
pub open spec fn walk(
    es: Seq<(String, (i64, u32))>,
    pids: Map<Seq<char>, u32>,
    orphans: Seq<u32>,
    alive: Seq<u32>,
    now: i64,
) -> (Seq<u32>, Seq<bool>, Map<Seq<char>, u32>, Seq<u32>)
    decreases es.len(),
{
    if es.len() == 0 {
        (Seq::<u32>::empty(), Seq::<bool>::empty(), pids, orphans)
    } else {
        let e = es[0];
        let s = step(e.0@, e.1.0, e.1.1, pids, orphans, alive, now);
        let r = walk(es.drop_first(), s.2, s.3, alive, now);
        (seq![s.0] + r.0, seq![s.1] + r.1, r.2, r.3)
    }
}

/// Processes tracked by some watched account.
pub open spec fn claimed(es: Seq<(String, (i64, u32))>, pids: Map<Seq<char>, u32>) -> Set<u32> {
    Set::new(|p: u32| exists|i: int| 0 <= i < es.len() && pid_of(pids, #[trigger] es[i].0@) == Some(p))
}

/// The live processes that no watched account tracks, each once, in the
/// order they were listed.
pub open spec fn orphans_of(alive: Seq<u32>, taken: Set<u32>) -> Seq<u32>
    decreases alive.len(),
{
    if alive.len() == 0 {
        Seq::<u32>::empty()
    } else {
        let before = orphans_of(alive.drop_last(), taken);
        let p = alive.last();
        if taken.contains(p) || before.contains(p) {
            before
        } else {
            before.push(p)
        }
    }
}

/// What one poll decides for the watched accounts `es`, given the tracked
/// processes and the live process list.
pub open spec fn tick_plan(
    es: Seq<(String, (i64, u32))>,
    pids: Map<Seq<char>, u32>,
    alive: Seq<u32>,
    now: i64,
) -> (Seq<u32>, Seq<bool>, Map<Seq<char>, u32>, Seq<u32>) {
    walk(es, pids, orphans_of(alive, claimed(es, pids)), alive, now)
}

/// The ids of the first `n` entries of `es` whose flag is set, in order.
pub open spec fn flagged_ids(es: Seq<(String, (i64, u32))>, flags: Seq<bool>, n: nat) -> Seq<Seq<char>>
    decreases n,
{
    if n == 0 {
        Seq::<Seq<char>>::empty()
    } else {
        let r = flagged_ids(es, flags, (n - 1) as nat);
        if flags[n - 1] {
            r.push(es[n - 1].0@)
        } else {
            r
        }
    }
}

pub proof fn lemma_walk_len(
    es: Seq<(String, (i64, u32))>,
    pids: Map<Seq<char>, u32>,
    orphans: Seq<u32>,
    alive: Seq<u32>,
    now: i64,
)
    ensures
        walk(es, pids, orphans, alive, now).0.len() == es.len(),
        walk(es, pids, orphans, alive, now).1.len() == es.len(),
    decreases es.len(),
{
    if es.len() > 0 {
        let e = es[0];
        let s = step(e.0@, e.1.0, e.1.1, pids, orphans, alive, now);
        lemma_walk_len(es.drop_first(), s.2, s.3, alive, now);
    }
}

/// Accounts that stay watched keep fewer than `MISS_THRESHOLD` misses.
pub proof fn lemma_walk_bound(
    es: Seq<(String, (i64, u32))>,
    pids: Map<Seq<char>, u32>,
    orphans: Seq<u32>,
    alive: Seq<u32>,
    now: i64,
)
    requires
        forall|j: int| 0 <= j < es.len() ==> (#[trigger] es[j]).1.1 < MISS_THRESHOLD,
    ensures
        forall|j: int|
            0 <= j < es.len() && !(#[trigger] walk(es, pids, orphans, alive, now).1[j]) ==> walk(
                es,
                pids,
                orphans,
                alive,
                now,
            ).0[j] < MISS_THRESHOLD,
    decreases es.len(),
{
    lemma_walk_len(es, pids, orphans, alive, now);
    if es.len() > 0 {
        let e = es[0];
        let s = step(e.0@, e.1.0, e.1.1, pids, orphans, alive, now);
        let tail = es.drop_first();
        assert forall|j: int| 0 <= j < tail.len() implies (#[trigger] tail[j]).1.1 < MISS_THRESHOLD by {
            assert(tail[j] == es[j + 1]);
        }
        lemma_walk_bound(tail, s.2, s.3, alive, now);
        lemma_walk_len(tail, s.2, s.3, alive, now);
        let w = walk(es, pids, orphans, alive, now);
        let r = walk(tail, s.2, s.3, alive, now);
        assert forall|j: int| 0 <= j < es.len() && !(#[trigger] w.1[j]) implies w.0[j] < MISS_THRESHOLD by {
            if j > 0 {
                assert(w.1[j] == r.1[j - 1]);
                assert(w.0[j] == r.0[j - 1]);
            } else {
                assert(w.1[0] == s.1);
                assert(w.0[0] == s.0);
            }
        }
    }
}

/// Entry `i`'s check sees the tracked process the poll started with (ids
/// are distinct, and a check only changes its own account's process).
pub proof fn lemma_walk_entry(
    es: Seq<(String, (i64, u32))>,
    pids: Map<Seq<char>, u32>,
    orphans: Seq<u32>,
    alive: Seq<u32>,
    now: i64,
    i: int,
)
    requires
        0 <= i < es.len(),
        forall|a: int, b: int| 0 <= a < es.len() && 0 <= b < es.len() && a != b ==> es[a].0@ != es[b].0@,
    ensures
        exists|p2: Map<Seq<char>, u32>, o2: Seq<u32>|
            pid_of(p2, es[i].0@) == pid_of(pids, es[i].0@) && o2.len() <= orphans.len() && walk(es, pids, orphans, alive, now).0[i]
                == step(es[i].0@, es[i].1.0, es[i].1.1, p2, o2, alive, now).0 && walk(
                es,
                pids,
                orphans,
                alive,
                now,
            ).1[i] == step(es[i].0@, es[i].1.0, es[i].1.1, p2, o2, alive, now).1,
    decreases es.len(),
{
    lemma_walk_len(es, pids, orphans, alive, now);
    let e = es[0];
    let s = step(e.0@, e.1.0, e.1.1, pids, orphans, alive, now);
    let tail = es.drop_first();
    let w = walk(es, pids, orphans, alive, now);
    let r = walk(tail, s.2, s.3, alive, now);
    if i == 0 {
        assert(w.0[0] == s.0 && w.1[0] == s.1);
        assert(pid_of(pids, es[0].0@) == pid_of(pids, es[0].0@));
    } else {
        assert forall|a: int, b: int| 0 <= a < tail.len() && 0 <= b < tail.len() && a != b implies tail[a].0@
            != tail[b].0@ by {
            assert(tail[a] == es[a + 1] && tail[b] == es[b + 1]);
        }
        lemma_walk_entry(tail, s.2, s.3, alive, now, i - 1);
        lemma_walk_len(tail, s.2, s.3, alive, now);
        assert(tail[i - 1] == es[i]);
        assert(w.0[i] == r.0[i - 1] && w.1[i] == r.1[i - 1]);
        assert(es[0].0@ != es[i].0@);
        assert(pid_of(s.2, es[i].0@) == pid_of(pids, es[i].0@));
        assert(s.3.len() <= orphans.len());
        let (p2, o2) = choose|p2: Map<Seq<char>, u32>, o2: Seq<u32>|
            pid_of(p2, tail[i - 1].0@) == pid_of(s.2, tail[i - 1].0@) && o2.len() <= s.3.len() && r.0[i - 1] == #[trigger] step(
                tail[i - 1].0@,
                tail[i - 1].1.0,
                tail[i - 1].1.1,
                p2,
                o2,
                alive,
                now,
            ).0 && r.1[i - 1] == step(tail[i - 1].0@, tail[i - 1].1.0, tail[i - 1].1.1, p2, o2, alive, now).1;
        assert(pid_of(p2, es[i].0@) == pid_of(pids, es[i].0@));
    }
}

proof fn lemma_flagged_contains(es: Seq<(String, (i64, u32))>, flags: Seq<bool>, n: nat, i: int)
    requires
        0 <= i < n,
        flags[i],
    ensures
        flagged_ids(es, flags, n).contains(es[i].0@),
    decreases n,
{
    let r = flagged_ids(es, flags, (n - 1) as nat);
    if i == n - 1 {
        assert(flagged_ids(es, flags, n) == r.push(es[i].0@));
        assert(flagged_ids(es, flags, n)[r.len() as int] == es[i].0@);
    } else {
        lemma_flagged_contains(es, flags, (n - 1) as nat, i);
        let k = choose|k: int| 0 <= k < r.len() && r[k] == es[i].0@;
        if flags[n - 1] {
            assert(flagged_ids(es, flags, n)[k] == r[k]);
        }
    }
}

proof fn lemma_flagged_from(es: Seq<(String, (i64, u32))>, flags: Seq<bool>, n: nat, j: int)
    requires
        0 <= j < flagged_ids(es, flags, n).len(),
    ensures
        exists|a: int| 0 <= a < n && flags[a] && flagged_ids(es, flags, n)[j] == #[trigger] es[a].0@,
    decreases n,
{
    let r = flagged_ids(es, flags, (n - 1) as nat);
    if j < r.len() {
        lemma_flagged_from(es, flags, (n - 1) as nat, j);
        let a = choose|a: int| 0 <= a < n - 1 && flags[a] && r[j] == #[trigger] es[a].0@;
        if flags[n - 1] {
            assert(flagged_ids(es, flags, n)[j] == r[j]);
        }
        assert(flagged_ids(es, flags, n)[j] == es[a].0@);
    } else {
        assert(flags[n - 1]);
        assert(flagged_ids(es, flags, n)[j] == es[n - 1].0@);
    }
}

proof fn lemma_flagged_only(es: Seq<(String, (i64, u32))>, flags: Seq<bool>, n: nat, j: int, i: int)
    requires
        0 <= j < flagged_ids(es, flags, n).len(),
        0 <= i < n <= es.len(),
        !flags[i],
        forall|a: int, b: int| 0 <= a < es.len() && 0 <= b < es.len() && a != b ==> es[a].0@ != es[b].0@,
    ensures
        flagged_ids(es, flags, n)[j] != es[i].0@,
{
    lemma_flagged_from(es, flags, n, j);
}

proof fn lemma_orphans_none(alive: Seq<u32>, taken: Set<u32>)
    requires
        forall|p: u32| alive.contains(p) ==> taken.contains(p),
    ensures
        orphans_of(alive, taken).len() == 0,
    decreases alive.len(),
{
    if alive.len() > 0 {
        assert forall|p: u32| alive.drop_last().contains(p) implies taken.contains(p) by {
            let k = choose|k: int| 0 <= k < alive.drop_last().len() && alive.drop_last()[k] == p;
            assert(alive[k] == p);
        }
        lemma_orphans_none(alive.drop_last(), taken);
        assert(alive.contains(alive.last())) by {
            assert(alive[alive.len() - 1] == alive.last());
        }
    }
}

fn vec_has(v: &Vec<u32>, x: u32) -> (r: bool)
    ensures
        r == v@.contains(x),
{
    let mut i: usize = 0;
    while i < v.len()
        invariant
            i <= v@.len(),
            forall|j: int| 0 <= j < i ==> v@[j] != x,
        decreases v.len() - i,
    {
        if v[i] == x {
            assert(v@[i as int] == x);
            return true;
        }
        i = i + 1;
    }
    false
}

/// Watched accounts and the game processes they own.
pub struct WatchState {
    /// Account id -> (end of the launch grace window in ms, consecutive misses).
    watched: Assoc<(i64, u32)>,
    /// Account id -> process id of its game client.
    pids: Assoc<u32>,
}

impl WatchState {
    /// Well-formed: both tables are well-formed and every watched account has
    /// fewer than `MISS_THRESHOLD` misses.
    pub closed spec fn wf(&self) -> bool {
        &&& self.watched.wf()
        &&& self.pids.wf()
        &&& forall|k: Seq<char>|
            #[trigger] self.watched.view().dom().contains(k) ==> self.watched.view()[k].1
                < MISS_THRESHOLD
    }

    /// Watched accounts, oldest first, with grace end and misses.
    pub closed spec fn watched_entries(&self) -> Seq<(String, (i64, u32))> {
        self.watched.entries()
    }

    /// Watched accounts as a map.
    pub closed spec fn watched_view(&self) -> Map<Seq<char>, (i64, u32)> {
        self.watched.view()
    }

    /// Tracked processes as a map.
    pub closed spec fn pids_view(&self) -> Map<Seq<char>, u32> {
        self.pids.view()
    }

    /// Nothing watched, nothing tracked.
    pub fn new() -> (r: Self)
        ensures
            r.wf(),
            r.watched_view() == Map::<Seq<char>, (i64, u32)>::empty(),
            r.pids_view() == Map::<Seq<char>, u32>::empty(),
            r.watched_entries().len() == 0,
    {
        WatchState { watched: Assoc::new(), pids: Assoc::new() }
    }

    /// Starts (or restarts) watching an account launched at `now`: checks
    /// begin after the grace window, with no misses counted.
    pub fn watch(&mut self, account_id: &str, now: i64)
        requires
            old(self).wf(),
            now <= i64::MAX - LAUNCH_DELAY_MS,
        ensures
            final(self).wf(),
            final(self).watched_view() == old(self).watched_view().insert(
                account_id@,
                ((now + LAUNCH_DELAY_MS) as i64, 0u32),
            ),
            final(self).pids_view() == old(self).pids_view(),
    {
        self.watched.insert(account_id, (now + LAUNCH_DELAY_MS, 0));
    }

    /// Records the game process of an account.
    pub fn track_pid(&mut self, account_id: &str, pid: u32)
        requires
            old(self).wf(),
        ensures
            final(self).wf(),
            final(self).watched_view() == old(self).watched_view(),
            final(self).watched_entries() == old(self).watched_entries(),
            final(self).pids_view() == old(self).pids_view().insert(account_id@, pid),
    {
        self.pids.insert(account_id, pid);
    }

    /// The tracked process of an account.
    pub fn pid(&self, account_id: &str) -> (r: Option<u32>)
        requires
            self.wf(),
        ensures
            r == pid_of(self.pids_view(), account_id@),
    {
        match self.pids.get(account_id) {
            Some(p) => Some(*p),
            None => None,
        }
    }

    /// Stops watching one account and forgets its process, giving the process
    /// back (what killing one account's client does to the state).
    pub fn forget(&mut self, account_id: &str) -> (r: Option<u32>)
        requires
            old(self).wf(),
        ensures
            final(self).wf(),
            r == pid_of(old(self).pids_view(), account_id@),
            final(self).watched_view() == old(self).watched_view().remove(account_id@),
            final(self).pids_view() == old(self).pids_view().remove(account_id@),
    {
        let r = match self.pids.remove(account_id) {
            Some(p) => Some(p),
            None => None,
        };
        self.watched.remove(account_id);
        r
    }

    /// Stops watching every account and forgets every process (what killing
    /// all clients does to the state); gives back the ids that were watched.
    pub fn clear(&mut self) -> (r: Vec<String>)
        requires
            old(self).wf(),
        ensures
            final(self).wf(),
            final(self).watched_view() == Map::<Seq<char>, (i64, u32)>::empty(),
            final(self).pids_view() == Map::<Seq<char>, u32>::empty(),
            r@.len() == old(self).watched_entries().len(),
            forall|i: int|
                0 <= i < r@.len() ==> (#[trigger] r@[i])@ == old(self).watched_entries()[i].0@,
    {
        let ids = self.watched.keys();
        self.watched.clear();
        self.pids.clear();
        ids
    }

    /// Whether no account is watched (the poll can stop).
    pub fn is_idle(&self) -> (r: bool)
        requires
            self.wf(),
        ensures
            r == (self.watched_view().dom() == Set::<Seq<char>>::empty()),
    {
        self.watched.is_empty()
    }

    /// The watched account ids, oldest first.
    pub fn watched_ids(&self) -> (r: Vec<String>)
        requires
            self.wf(),
        ensures
            r@.len() == self.watched_entries().len(),
            forall|i: int|
                0 <= i < r@.len() ==> (#[trigger] r@[i])@ == self.watched_entries()[i].0@,
    {
        self.watched.keys()
    }

    /// Processes tracked by some watched account.
    fn claimed_pids(&self) -> (r: Vec<u32>)
        requires
            self.wf(),
        ensures
            forall|p: u32| r@.contains(p) <==> claimed(self.watched_entries(), self.pids_view()).contains(p),
    {
        let mut r: Vec<u32> = Vec::new();
        let n = self.watched.len();
        let mut i: usize = 0;
        while i < n
            invariant
                self.wf(),
                n == self.watched_entries().len(),
                i <= n,
                forall|p: u32|
                    r@.contains(p) <==> exists|j: int|
                        0 <= j < i && pid_of(self.pids_view(), #[trigger] self.watched_entries()[j].0@)
                            == Some(p),
            decreases n - i,
        {
            let (id, _v) = self.watched.entry(i);
            match self.pid(id.as_str()) {
                Some(p) => {
                    let ghost old_r = r@;
                    r.push(p);
                    proof {
                        assert(r@ == old_r.push(p));
                        assert forall|q: u32| r@.contains(q) <==> exists|j: int|
                            0 <= j < i + 1 && pid_of(self.pids_view(), #[trigger] self.watched_entries()[j].0@)
                                == Some(q) by {
                            if r@.contains(q) {
                                let k = choose|k: int| 0 <= k < r@.len() && r@[k] == q;
                                if k < old_r.len() {
                                    assert(old_r[k] == q);
                                    assert(old_r.contains(q));
                                } else {
                                    assert(pid_of(self.pids_view(), self.watched_entries()[i as int].0@) == Some(q));
                                }
                            }
                            if exists|j: int|
                                0 <= j < i + 1 && pid_of(self.pids_view(), #[trigger] self.watched_entries()[j].0@)
                                    == Some(q) {
                                let j = choose|j: int|
                                    0 <= j < i + 1 && pid_of(self.pids_view(), #[trigger] self.watched_entries()[j].0@)
                                        == Some(q);
                                if j < i {
                                    assert(old_r.contains(q));
                                    let k = choose|k: int| 0 <= k < old_r.len() && old_r[k] == q;
                                    assert(r@[k] == q);
                                } else {
                                    assert(r@[old_r.len() as int] == q);
                                }
                            }
                        }
                    }
                },
                None => {},
            }
            i = i + 1;
        }
        r
    }

    /// How one poll with the live processes `alive` at `now` takes the state
    /// from `self` to `after`, closing the accounts `closed` (see `tick`).
    pub open spec fn ticked(self, alive: Seq<u32>, now: i64, after: Self, closed: Seq<String>) -> bool {
        let es = self.watched_entries();
        let w = tick_plan(es, self.pids_view(), alive, now);
        &&& closed.len() == flagged_ids(es, w.1, es.len()).len()
        &&& forall|i: int|
            0 <= i < closed.len() ==> (#[trigger] closed[i])@ == flagged_ids(es, w.1, es.len())[i]
        &&& forall|i: int|
            0 <= i < es.len() && w.1[i] ==> !after.watched_view().dom().contains(
                #[trigger] es[i].0@,
            ) && !after.pids_view().dom().contains(es[i].0@)
        &&& forall|i: int|
            0 <= i < es.len() && !w.1[i] ==> after.watched_view().dom().contains(
                #[trigger] es[i].0@,
            ) && after.watched_view()[es[i].0@] == (es[i].1.0, w.0[i])
        &&& forall|k: Seq<char>|
            #[trigger] after.watched_view().dom().contains(k) ==> self.watched_view().dom().contains(k)
        &&& forall|k: Seq<char>|
            #[trigger] after.pids_view().dom().contains(k) ==> w.2.dom().contains(k)
                && after.pids_view()[k] == w.2[k]
        &&& forall|k: Seq<char>|
            #[trigger] w.2.dom().contains(k) && !flagged_ids(es, w.1, es.len()).contains(k)
                ==> after.pids_view().dom().contains(k)
    }

    /// One poll of the process list at `now`: `alive` lists the live game
    /// processes. Each watched account past its grace window is checked: it
    /// runs when its tracked process is alive (or, with none tracked, when any
    /// game process is alive); a tracked account whose process is gone adopts
    /// the next untracked live process instead; otherwise it counts a miss,
    /// and at `MISS_THRESHOLD` consecutive misses it is closed: no longer
    /// watched, its process forgotten. Gives back the closed ids, in order.
    pub fn tick(&mut self, alive: &Vec<u32>, now: i64) -> (closed: Vec<String>)
        requires
            old(self).wf(),
        ensures
            final(self).wf(),
            old(self).ticked(alive@, now, *final(self), closed@),
    {
        let ghost es = self.watched_entries();
        let ghost pids0 = self.pids_view();
        proof {
            self.watched.lemma_entries_in_view();
        }
        // untracked live processes, each once, in listing order
        let claimed_v = self.claimed_pids();
        let mut orphans: Vec<u32> = Vec::new();
        let mut k: usize = 0;
        assert(alive@.subrange(0, 0) =~= Seq::<u32>::empty());
        while k < alive.len()
            invariant
                k <= alive@.len(),
                forall|p: u32| claimed_v@.contains(p) <==> claimed(es, pids0).contains(p),
                orphans@ == orphans_of(alive@.subrange(0, k as int), claimed(es, pids0)),
            decreases alive.len() - k,
        {
            let p = alive[k];
            assert(alive@.subrange(0, k + 1).drop_last() =~= alive@.subrange(0, k as int));
            assert(alive@.subrange(0, k + 1).last() == p);
            if !vec_has(&claimed_v, p) && !vec_has(&orphans, p) {
                orphans.push(p);
            }
            k = k + 1;
        }
        assert(alive@.subrange(0, alive@.len() as int) =~= alive@);
        let ghost w = walk(es, pids0, orphans@, alive@, now);
        proof {
            lemma_walk_len(es, pids0, orphans@, alive@, now);
            self.watched.lemma_entries_in_view();
            assert forall|j: int| 0 <= j < es.len() implies (#[trigger] es[j]).1.1 < MISS_THRESHOLD by {
                assert(self.watched.view().dom().contains(es[j].0@));
                assert(self.watched.view()[es[j].0@] == es[j].1);
            }
        }
        // the checks, in watch order
        let n = self.watched.len();
        let ids = self.watched.keys();
        let mut ms: Vec<u32> = Vec::new();
        let mut flags: Vec<bool> = Vec::new();
        let mut oi: usize = 0;
        let mut i: usize = 0;
        assert(es.skip(0) =~= es);
        assert(orphans@.skip(0) =~= orphans@);
        assert(ms@ + w.0 =~= w.0);
        assert(flags@ + w.1 =~= w.1);
        while i < n
            invariant
                self.wf(),
                self.watched_entries() == es,
                n == es.len(),
                ids@.len() == n,
                forall|j: int| 0 <= j < n ==> (#[trigger] ids@[j])@ == es[j].0@,
                forall|j: int| 0 <= j < n ==> (#[trigger] es[j]).1.1 < MISS_THRESHOLD,
                i <= n,
                oi <= orphans@.len(),
                ms@.len() == i,
                flags@.len() == i,
                w == (
                    ms@ + walk(es.skip(i as int), self.pids_view(), orphans@.skip(oi as int), alive@, now).0,
                    flags@ + walk(es.skip(i as int), self.pids_view(), orphans@.skip(oi as int), alive@, now).1,
                    walk(es.skip(i as int), self.pids_view(), orphans@.skip(oi as int), alive@, now).2,
                    walk(es.skip(i as int), self.pids_view(), orphans@.skip(oi as int), alive@, now).3,
                ),
            decreases n - i,
        {
            let ghost rest = es.skip(i as int);
            let ghost pv = self.pids_view();
            let ghost ov = orphans@.skip(oi as int);
            assert(rest[0] == es[i as int]);
            assert(rest.drop_first() =~= es.skip(i + 1));
            let (ready, misses) = {
                let (_id, v) = self.watched.entry(i);
                (v.0, v.1)
            };
            let id = &ids[i];
            let ghost s = step(es[i as int].0@, ready, misses, pv, ov, alive@, now);
            let mut m: u32 = misses;
            let mut f: bool = false;
            if now < ready {
            } else {
                let pid = self.pid(id.as_str());
                let running = match pid {
                    Some(p) => vec_has(alive, p),
                    None => alive.len() > 0,
                };
                if running {
                    m = 0;
                } else if pid.is_some() && oi < orphans.len() {
                    assert(ov[0] == orphans@[oi as int]);
                    self.pids.insert(id.as_str(), orphans[oi]);
                    assert(orphans@.skip(oi + 1) =~= ov.drop_first());
                    oi = oi + 1;
                    m = 0;
                } else {
                    assert(oi < orphans@.len() ==> ov.len() > 0);
                    m = misses + 1;
                    f = m >= MISS_THRESHOLD;
                }
            }
            assert(s.0 == m && s.1 == f);
            assert(self.pids_view() == s.2);
            assert(orphans@.skip(oi as int) =~= s.3);
            let ghost r2 = walk(es.skip(i + 1), self.pids_view(), orphans@.skip(oi as int), alive@, now);
            assert(walk(rest, pv, ov, alive@, now) == (seq![m] + r2.0, seq![f] + r2.1, r2.2, r2.3));
            ms.push(m);
            flags.push(f);
            assert(ms@ + r2.0 =~= ms@.drop_last() + (seq![m] + r2.0));
            assert(flags@ + r2.1 =~= flags@.drop_last() + (seq![f] + r2.1));
            i = i + 1;
        }
        proof {
            assert(es.skip(n as int).len() == 0);
            assert(ms@ =~= w.0);
            assert(flags@ =~= w.1);
        }
        // apply: closed accounts leave both tables, the rest keep their new counts
        let ghost pw = self.pids_view();
        let ghost wv0 = self.watched_view();
        proof {
            self.watched.lemma_distinct();
            lemma_walk_bound(es, pids0, orphans@, alive@, now);
        }
        let mut closed: Vec<String> = Vec::new();
        let mut j: usize = 0;
        while j < n
            invariant
                self.wf(),
                n == es.len(),
                ids@.len() == n,
                forall|a: int| 0 <= a < n ==> (#[trigger] ids@[a])@ == es[a].0@,
                forall|a: int, b: int| 0 <= a < n && 0 <= b < n && a != b ==> es[a].0@ != es[b].0@,
                forall|a: int| 0 <= a < n ==> wv0.dom().contains(#[trigger] es[a].0@) && wv0[es[a].0@] == es[a].1,
                forall|k: Seq<char>| #[trigger] wv0.dom().contains(k) ==> exists|a: int| 0 <= a < n && es[a].0@ == k,
                ms@ == w.0,
                flags@ == w.1,
                forall|a: int| 0 <= a < n && !(#[trigger] w.1[a]) ==> w.0[a] < MISS_THRESHOLD,
                ms@.len() == n,
                flags@.len() == n,
                pw == w.2,
                j <= n,
                closed@.len() == flagged_ids(es, w.1, j as nat).len(),
                forall|a: int| 0 <= a < closed@.len() ==> (#[trigger] closed@[a])@ == flagged_ids(es, w.1, j as nat)[a],
                forall|a: int| 0 <= a < j && w.1[a] ==> !self.watched_view().dom().contains(#[trigger] es[a].0@)
                    && !self.pids_view().dom().contains(es[a].0@),
                forall|a: int| 0 <= a < j && !w.1[a] ==> self.watched_view().dom().contains(#[trigger] es[a].0@)
                    && self.watched_view()[es[a].0@] == (es[a].1.0, w.0[a]),
                forall|a: int| j <= a < n ==> self.watched_view().dom().contains(#[trigger] es[a].0@)
                    && self.watched_view()[es[a].0@] == es[a].1,
                forall|k: Seq<char>| #[trigger] self.watched_view().dom().contains(k) ==> wv0.dom().contains(k),
                forall|k: Seq<char>| #[trigger] self.pids_view().dom().contains(k) ==> pw.dom().contains(k)
                    && self.pids_view()[k] == pw[k],
                forall|k: Seq<char>| #[trigger] pw.dom().contains(k) && !flagged_ids(es, w.1, j as nat).contains(k)
                    ==> self.pids_view().dom().contains(k),
            decreases n - j,
        {
            let ghost before_closed = flagged_ids(es, w.1, j as nat);
            assert(flagged_ids(es, w.1, (j + 1) as nat) == if w.1[j as int] {
                before_closed.push(es[j as int].0@)
            } else {
                before_closed
            });
            let ghost old_ids = closed@;
            let ghost old_pv = self.pids_view();
            if flags[j] {
                self.watched.remove(ids[j].as_str());
                self.pids.remove(ids[j].as_str());
                assert forall|k: Seq<char>| #[trigger] self.pids_view().dom().contains(k) implies pw.dom().contains(k)
                    && self.pids_view()[k] == pw[k] by {
                    assert(old_pv.dom().contains(k));
                    assert(self.pids_view()[k] == old_pv[k]);
                }
                closed.push(crate::text::owned(ids[j].as_str()));
                proof {
                    assert forall|a: int| 0 <= a < closed@.len() implies (#[trigger] closed@[a])@
                        == flagged_ids(es, w.1, (j + 1) as nat)[a] by {
                        if a < old_ids.len() {
                            assert(closed@[a] == old_ids[a]);
                        }
                    }
                    assert forall|k: Seq<char>| #[trigger] pw.dom().contains(k) && !flagged_ids(es, w.1, (j + 1) as nat).contains(k)
                        implies self.pids_view().dom().contains(k) by {
                        assert(!before_closed.contains(k)) by {
                            if before_closed.contains(k) {
                                let c = choose|c: int| 0 <= c < before_closed.len() && before_closed[c] == k;
                                assert(before_closed.push(es[j as int].0@)[c] == k);
                            }
                        }
                        assert(k != es[j as int].0@) by {
                            assert(before_closed.push(es[j as int].0@)[before_closed.len() as int] == es[j as int].0@);
                        }
                    }
                }
            } else {
                let m = ms[j];
                assert(w.0[j as int] < MISS_THRESHOLD);
                let ready = match self.watched.get(ids[j].as_str()) {
                    Some(v) => v.0,
                    None => 0,
                };
                self.watched.insert(ids[j].as_str(), (ready, m));
            }
            j = j + 1;
        }
        closed
    }

    /// A poll leaves an account inside its launch grace window alone: it is
    /// not closed and its miss count does not change.
    pub proof fn law_tick_spares_grace_window(&self, alive: Seq<u32>, now: i64, i: int)
        requires
            self.wf(),
            0 <= i < self.watched_entries().len(),
            now < self.watched_entries()[i].1.0,
        ensures
            !tick_plan(self.watched_entries(), self.pids_view(), alive, now).1[i],
            tick_plan(self.watched_entries(), self.pids_view(), alive, now).0[i]
                == self.watched_entries()[i].1.1,
    {
        self.watched.lemma_distinct();
        let es = self.watched_entries();
        lemma_walk_entry(es, self.pids_view(), orphans_of(alive, claimed(es, self.pids_view())), alive, now, i);
    }

    /// A poll never closes an account whose tracked process is alive: the
    /// account stays watched with its miss count reset.
    pub proof fn law_tick_keeps_live_account(&self, alive: Seq<u32>, now: i64, i: int)
        requires
            self.wf(),
            0 <= i < self.watched_entries().len(),
            pid_of(self.pids_view(), self.watched_entries()[i].0@) matches Some(p) && alive.contains(p),
        ensures
            !tick_plan(self.watched_entries(), self.pids_view(), alive, now).1[i],
            now >= self.watched_entries()[i].1.0 ==> tick_plan(self.watched_entries(), self.pids_view(), alive, now).0[i] == 0,
    {
        self.watched.lemma_distinct();
        let es = self.watched_entries();
        lemma_walk_entry(es, self.pids_view(), orphans_of(alive, claimed(es, self.pids_view())), alive, now, i);
    }

    /// A poll closes an account only when it is past its grace window and
    /// this miss is its `MISS_THRESHOLD`-th in a row.
    pub proof fn law_tick_closes_only_at_threshold(&self, alive: Seq<u32>, now: i64, i: int)
        requires
            self.wf(),
            0 <= i < self.watched_entries().len(),
            tick_plan(self.watched_entries(), self.pids_view(), alive, now).1[i],
        ensures
            now >= self.watched_entries()[i].1.0,
            self.watched_entries()[i].1.1 == MISS_THRESHOLD - 1,
            !is_running(pid_of(self.pids_view(), self.watched_entries()[i].0@), alive),
    {
        self.watched.lemma_distinct();
        self.watched.lemma_entries_in_view();
        let es = self.watched_entries();
        assert(self.watched.view().dom().contains(es[i].0@));
        assert(self.watched.view()[es[i].0@] == es[i].1);
        lemma_walk_entry(es, self.pids_view(), orphans_of(alive, claimed(es, self.pids_view())), alive, now, i);
    }

    /// What a poll does to one missed account: an account past its grace
    /// window whose game is not running, and which has no untracked live
    /// process to adopt (it tracks none, or every live game process is
    /// tracked by some watched account), counts one more miss. Below
    /// `MISS_THRESHOLD` misses it stays watched with that count and is not
    /// closed; at the `MISS_THRESHOLD`-th miss (the sixth) it is closed: no
    /// longer watched, its process forgotten, and its id among those the poll
    /// gives back.
    pub proof fn law_tick_counts_a_miss(
        &self,
        alive: Seq<u32>,
        now: i64,
        after: Self,
        closed: Seq<String>,
        id: Seq<char>,
    )
        requires
            self.wf(),
            self.ticked(alive, now, after, closed),
            self.watched_view().dom().contains(id),
            now >= self.watched_view()[id].0,
            !is_running(pid_of(self.pids_view(), id), alive),
            pid_of(self.pids_view(), id) is None || forall|p: u32|
                alive.contains(p) ==> exists|k: Seq<char>|
                    self.watched_view().dom().contains(k) && pid_of(self.pids_view(), k) == Some(p),
        ensures
            self.watched_view()[id].1 + 1 < MISS_THRESHOLD ==> after.watched_view().dom().contains(id)
                && after.watched_view()[id] == (self.watched_view()[id].0, (self.watched_view()[id].1 + 1) as u32)
                && !(exists|j: int| 0 <= j < closed.len() && (#[trigger] closed[j])@ == id),
            self.watched_view()[id].1 + 1 == MISS_THRESHOLD ==> !after.watched_view().dom().contains(id)
                && !after.pids_view().dom().contains(id) && exists|j: int|
                0 <= j < closed.len() && (#[trigger] closed[j])@ == id,
    {
        self.watched.lemma_distinct();
        self.watched.lemma_entries_in_view();
        let es = self.watched_entries();
        let pids = self.pids_view();
        let i = choose|i: int| 0 <= i < es.len() && es[i].0@ == id;
        assert(es[i].1 == self.watched_view()[id]);
        let taken = claimed(es, pids);
        let orphans = orphans_of(alive, taken);
        if pid_of(pids, id) is Some {
            assert forall|p: u32| alive.contains(p) implies taken.contains(p) by {
                let k = choose|k: Seq<char>| self.watched_view().dom().contains(k) && pid_of(pids, k) == Some(p);
                let a = choose|a: int| 0 <= a < es.len() && es[a].0@ == k;
                assert(pid_of(pids, es[a].0@) == Some(p));
            }
            lemma_orphans_none(alive, taken);
        }
        lemma_walk_entry(es, pids, orphans, alive, now, i);
        lemma_walk_len(es, pids, orphans, alive, now);
        let w = tick_plan(es, pids, alive, now);
        let f = flagged_ids(es, w.1, es.len());
        if w.1[i] {
            lemma_flagged_contains(es, w.1, es.len(), i);
            let j = choose|j: int| 0 <= j < f.len() && f[j] == id;
            assert(closed[j]@ == id);
        } else {
            assert forall|j: int| 0 <= j < closed.len() implies (#[trigger] closed[j])@ != id by {
                assert(closed[j]@ == f[j]);
                lemma_flagged_only(es, w.1, es.len(), j, i);
            }
        }
    }

    /// Processes of accounts still inside their launch grace window at `now`
    /// (left alone by memory trimming).
    pub fn launching_pids(&self, now: i64) -> (r: Vec<u32>)
        requires
            self.wf(),
        ensures
            forall|p: u32|
                r@.contains(p) <==> exists|i: int|
                    0 <= i < self.watched_entries().len() && now < self.watched_entries()[i].1.0
                        && pid_of(self.pids_view(), #[trigger] self.watched_entries()[i].0@)
                        == Some(p),
    {
        let mut r: Vec<u32> = Vec::new();
        let n = self.watched.len();
        let mut i: usize = 0;
        while i < n
            invariant
                self.wf(),
                n == self.watched_entries().len(),
                i <= n,
                forall|p: u32|
                    r@.contains(p) <==> exists|j: int|
                        0 <= j < i && now < self.watched_entries()[j].1.0 && pid_of(
                            self.pids_view(),
                            #[trigger] self.watched_entries()[j].0@,
                        ) == Some(p),
            decreases n - i,
        {
            let (id, v) = self.watched.entry(i);
            if now < v.0 {
                match self.pid(id.as_str()) {
                    Some(p) => {
                        let ghost old_r = r@;
                        r.push(p);
                        proof {
                            assert(r@ == old_r.push(p));
                            assert forall|q: u32| r@.contains(q) <==> exists|j: int|
                                0 <= j < i + 1 && now < self.watched_entries()[j].1.0 && pid_of(
                                    self.pids_view(),
                                    #[trigger] self.watched_entries()[j].0@,
                                ) == Some(q) by {
                                if r@.contains(q) {
                                    let k = choose|k: int| 0 <= k < r@.len() && r@[k] == q;
                                    if k < old_r.len() {
                                        assert(old_r[k] == q);
                                        assert(old_r.contains(q));
                                    } else {
                                        assert(q == p);
                                        assert(pid_of(self.pids_view(), self.watched_entries()[i as int].0@) == Some(q));
                                    }
                                }
                                if exists|j: int|
                                    0 <= j < i + 1 && now < self.watched_entries()[j].1.0 && pid_of(
                                        self.pids_view(),
                                        #[trigger] self.watched_entries()[j].0@,
                                    ) == Some(q) {
                                    let j = choose|j: int|
                                        0 <= j < i + 1 && now < self.watched_entries()[j].1.0 && pid_of(
                                            self.pids_view(),
                                            #[trigger] self.watched_entries()[j].0@,
                                        ) == Some(q);
                                    if j < i {
                                        assert(old_r.contains(q));
                                        let k = choose|k: int| 0 <= k < old_r.len() && old_r[k] == q;
                                        assert(r@[k] == q);
                                    } else {
                                        assert(q == p);
                                        assert(r@[old_r.len() as int] == q);
                                    }
                                }
                            }
                        }
                    },
                    None => {},
                }
            }
            i = i + 1;
        }
        r
    }
}

} // verus!
