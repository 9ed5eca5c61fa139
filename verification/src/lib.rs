use vstd::prelude::*;

pub mod asr;
pub mod browser;
pub mod color;
pub mod cookies;
pub mod downloads;
pub mod ghostty;
pub mod hashing;
pub mod key_modes;
pub mod keys;
pub mod notify;
pub mod paths;
pub mod platform;
pub mod protocol;
pub mod scripts;
pub mod text;
pub mod tmux_compat;
pub mod update;

verus! {
} // verus!
