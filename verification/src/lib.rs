//! Verified core of the multi-account Roblox launcher: the parsing, formatting,
//! encryption framing and state-keeping decisions that the desktop shell drives.

pub mod json;
pub mod text;
pub mod version;
pub mod crypto;
pub mod dpapi;
pub mod assoc;
pub mod watch;
pub mod cache;
pub mod web;
pub mod launch;
pub mod roblox_api;
pub mod native;
pub mod paths;
pub mod commands;
pub mod login;
pub mod tracking;
