# multiroblox

A multi-account launcher for the Roblox desktop client, split in two:

- `src/` is the verified library (Verus). It holds the launcher's logic:
  reading launch targets and planning launches, the web replies it parses and
  the request bodies it writes, the authentication-ticket and share-link
  request loops as step functions, crash watching of launched clients, token
  caches, field encryption records, the settings and account-file edits, the
  frame-rate settings rewrite, the process-listing and helper-output scanners,
  and the Windows paths the launcher uses. Calls into outside crates (ciphers,
  key derivation, base64, URL parsing, percent-encoding, JSON parsing and
  string escaping, UUIDs, clocks, randomness) go through small trusted wrappers whose
  contracts state what the crates promise.
- `app/` is the ordinary Rust around it: file and network I/O, helper
  processes, the Windows data-protection and working-set trim calls (handed to
  the library's record readers and writers and its trim passes), the crash-watch poll loop and the command entry points, which
  hand plain values to the library and act on what it decides.
- `tests/` runs the library on concrete inputs, and checks the text scanners
  against the `regex` crate on the same patterns.
