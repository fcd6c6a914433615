//! The Windows data-protection API (DPAPI), which binds a blob to the
//! logged-in user, as a build without it has it: every call reports that no
//! protection is available. The record readers and writers in `crypto` take
//! DPAPI as an argument, so a Windows build hands them the real one.

use vstd::prelude::*;

verus! {

/// Protects `data` for the current user; unavailable on this build.
pub fn protect(data: &[u8]) -> (r: Option<Vec<u8>>)
    ensures
        r is None,
{
    None
}

/// Unprotects a blob made by `protect`; unavailable on this build.
pub fn unprotect(data: &[u8]) -> (r: Option<Vec<u8>>)
    ensures
        r is None,
{
    None
}

} // verus!
