//! Short-lived caches keyed by account cookie: CSRF tokens (five minutes)
//! and authentication tickets (25 seconds), each stored with the time it was
//! obtained.

use vstd::prelude::*;
use crate::assoc::Assoc;
use crate::text::owned;

verus! {

/// How long a CSRF token is reused (ms).
pub const CSRF_TTL_MS: i64 = 300000;

/// How long an authentication ticket is reused (ms).
pub const TICKET_TTL_MS: i64 = 25000;

/// Whether a value obtained at `stamp` is still fresh at `now`.
pub open spec fn is_fresh(stamp: i64, now: i64, ttl: i64) -> bool {
    now - stamp < ttl
}

/// Values with the time they were obtained, by cookie.
pub struct TokenCache {
    entries: Assoc<(String, i64)>,
}

/// The cached value under `key` if it is still fresh at `now`.
pub open spec fn fresh_value(m: Map<Seq<char>, (String, i64)>, key: Seq<char>, now: i64, ttl: i64) -> Option<Seq<char>> {
    if m.dom().contains(key) && is_fresh(m[key].1, now, ttl) {
        Some(m[key].0@)
    } else {
        None
    }
}

impl TokenCache {
    pub closed spec fn wf(&self) -> bool {
        self.entries.wf()
    }

    /// Cookie -> (value, time obtained).
    pub closed spec fn view(&self) -> Map<Seq<char>, (String, i64)> {
        self.entries.view()
    }

    pub fn new() -> (r: Self)
        ensures
            r.wf(),
            r.view() == Map::<Seq<char>, (String, i64)>::empty(),
    {
        TokenCache { entries: Assoc::new() }
    }

    /// The value cached for `key`, if it was obtained less than `ttl` ms
    /// before `now`.
    pub fn fresh(&self, key: &str, now: i64, ttl: i64) -> (r: Option<String>)
        requires
            self.wf(),
        ensures
            r matches Some(v) ==> fresh_value(self.view(), key@, now, ttl) == Some(v@),
            r is None ==> fresh_value(self.view(), key@, now, ttl) is None,
    {
        match self.entries.get(key) {
            Some(entry) => {
                if (now as i128) - (entry.1 as i128) < ttl as i128 {
                    Some(owned(entry.0.as_str()))
                } else {
                    None
                }
            },
            None => None,
        }
    }

    /// Caches `value` for `key`, obtained at `now`.
    pub fn store(&mut self, key: &str, value: &str, now: i64)
        requires
            old(self).wf(),
        ensures
            final(self).wf(),
            final(self).view().dom() == old(self).view().dom().insert(key@),
            final(self).view()[key@].0@ == value@,
            final(self).view()[key@].1 == now,
            forall|k: Seq<char>|
                k != key@ && #[trigger] old(self).view().dom().contains(k) ==> final(self).view()[k]
                    == old(self).view()[k],
    {
        self.entries.insert(key, (owned(value), now));
    }

    /// Drops the value cached for `key`.
    pub fn invalidate(&mut self, key: &str)
        requires
            old(self).wf(),
        ensures
            final(self).wf(),
            final(self).view() == old(self).view().remove(key@),
    {
        self.entries.remove(key);
    }

}

/// A value read back after `store(key, value, at)` is the stored value while
/// less than `ttl` has passed, and stale after that.
pub proof fn law_store_then_fresh(
    before: Map<Seq<char>, (String, i64)>,
    after: Map<Seq<char>, (String, i64)>,
    key: Seq<char>,
    value: Seq<char>,
    at: i64,
    now: i64,
    ttl: i64,
)
    requires
        after.dom() == before.dom().insert(key),
        after[key].0@ == value,
        after[key].1 == at,
    ensures
        now - at < ttl ==> fresh_value(after, key, now, ttl) == Some(value),
        now - at >= ttl ==> fresh_value(after, key, now, ttl) is None,
{
}

/// Storing under one key leaves what the others read back unchanged.
pub proof fn law_store_keeps_other_keys(
    before: Map<Seq<char>, (String, i64)>,
    after: Map<Seq<char>, (String, i64)>,
    key: Seq<char>,
    other: Seq<char>,
    now: i64,
    ttl: i64,
)
    requires
        after.dom() == before.dom().insert(key),
        forall|k: Seq<char>| k != key && #[trigger] before.dom().contains(k) ==> after[k] == before[k],
        other != key,
    ensures
        fresh_value(after, other, now, ttl) == fresh_value(before, other, now, ttl),
{
    assert(after.dom().contains(other) == before.dom().contains(other));
}

/// After `invalidate(key)` nothing is read back for `key`.
pub proof fn law_invalidate_forgets(before: Map<Seq<char>, (String, i64)>, key: Seq<char>, now: i64, ttl: i64)
    ensures
        fresh_value(before.remove(key), key, now, ttl) is None,
{
}

} // verus!
