//! Desktop notification parameters for `org.freedesktop.Notifications`.
use vstd::prelude::*;
use crate::text::str_eq;

verus! {

/// Basename of the installed desktop file (`com.flowmux.App.desktop`)
/// without the `.desktop` extension: the `desktop-entry` hint of every
/// notification, so the desktop groups the toasts under the launcher icon
/// and clears its indicator when they are withdrawn, and the icon name.
pub const DESKTOP_FILE_BASENAME: &'static str = "com.flowmux.App";

/// How much a notification asks for attention.
#[derive(Debug, Clone, Copy, PartialEq, Eq, Structural)]
pub enum NotificationLevel {
    Info,
    AttentionNeeded,
    Error,
}

/// The freedesktop urgency code of a level: 0 low, 1 normal, 2 critical.
pub open spec fn urgency_code(level: NotificationLevel) -> u8 {
    match level {
        NotificationLevel::Info => 0,
        NotificationLevel::AttentionNeeded => 1,
        NotificationLevel::Error => 2,
    }
}

/// The `expire_timeout` of a level: `-1` lets the desktop apply its
/// default; `0` keeps the toast until it is withdrawn explicitly.
pub open spec fn expire_timeout(level: NotificationLevel) -> i32 {
    match level {
        NotificationLevel::Info => -1i32,
        _ => 0,
    }
}

pub fn urgency_for(level: NotificationLevel) -> (r: u8)
    ensures
        r == urgency_code(level),
{
    match level {
        NotificationLevel::Info => 0,
        NotificationLevel::AttentionNeeded => 1,
        NotificationLevel::Error => 2,
    }
}

pub fn expire_for(level: NotificationLevel) -> (r: i32)
    ensures
        r == expire_timeout(level),
{
    match level {
        NotificationLevel::Error | NotificationLevel::AttentionNeeded => 0,
        NotificationLevel::Info => -1,
    }
}

/// The level a command line names: `attention`, `error`, anything else
/// informational.
pub open spec fn level_named(name: Seq<char>) -> NotificationLevel {
    if name == "attention"@ {
        NotificationLevel::AttentionNeeded
    } else if name == "error"@ {
        NotificationLevel::Error
    } else {
        NotificationLevel::Info
    }
}

pub fn parse_level(s: &str) -> (r: NotificationLevel)
    ensures
        r == level_named(s@),
{
    if str_eq(s, "attention") {
        NotificationLevel::AttentionNeeded
    } else if str_eq(s, "error") {
        NotificationLevel::Error
    } else {
        NotificationLevel::Info
    }
}

/// Urgency grows with the level, and only informational toasts expire on
/// their own: anything more urgent stays until it is withdrawn.
pub proof fn lemma_urgent_toasts_stay(level: NotificationLevel)
    ensures
        urgency_code(level) <= 2,
        expire_timeout(level) == 0 <==> urgency_code(level) >= 1,
        expire_timeout(level) == -1 <==> level is Info,
{
}

} // verus!
