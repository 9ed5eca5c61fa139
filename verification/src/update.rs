//! Self-update: the side-panel banner's state machine and the text it shows.
use vstd::prelude::*;
use crate::scripts::{decimal_digits, push_decimal};
use crate::text::{push_str, to_string};

verus! {

/// A release version `major.minor.patch`, ordered field by field.
#[derive(Debug, Clone, Copy, PartialEq, Eq, Structural, Hash, PartialOrd, Ord)]
pub struct Version(pub u32, pub u32, pub u32);

/// `a` is not newer than `b`, comparing major, then minor, then patch.
pub open spec fn version_le(a: Version, b: Version) -> bool {
    a.0 < b.0 || (a.0 == b.0 && (a.1 < b.1 || (a.1 == b.1 && a.2 <= b.2)))
}

/// `major.minor.patch` in decimal.
pub open spec fn version_text(v: Version) -> Seq<char> {
    decimal_digits(v.0 as nat) + "."@ + decimal_digits(v.1 as nat) + "."@ + decimal_digits(v.2 as nat)
}

impl Version {
    /// Whether `self` is not newer than `other`.
    pub fn at_most(&self, other: &Version) -> (r: bool)
        ensures
            r == version_le(*self, *other),
    {
        self.0 < other.0 || (self.0 == other.0 && (self.1 < other.1 || (self.1 == other.1
            && self.2 <= other.2)))
    }

    /// The dotted form, e.g. `0.8.0`.
    pub fn to_string(&self) -> (r: String)
        ensures
            r@ == version_text(*self),
    {
        let mut s = String::new();
        push_decimal(&mut s, self.0 as u64);
        push_str(&mut s, ".");
        push_decimal(&mut s, self.1 as u64);
        push_str(&mut s, ".");
        push_decimal(&mut s, self.2 as u64);
        s
    }
}

/// Progress reported by the background install task.
#[derive(Debug, Clone, Copy, PartialEq, Eq, Structural)]
pub enum Stage {
    /// Bringing the managed clone to the release tag.
    Fetching,
    /// Running the platform install script (build and install).
    Installing,
}

/// Events flowing from the update task to the side-panel banner.
#[derive(Debug, Clone, PartialEq, Eq)]
pub enum Event {
    /// A newer release exists.
    Available(Version),
    /// Install progress.
    Stage(Stage),
    /// Install finished; takes effect on next launch.
    Done(Version),
    /// Install failed; a short summary for the banner.
    Failed(String),
}

/// Side-panel banner state.
#[derive(Debug, Clone, PartialEq, Eq)]
pub enum BannerState {
    Hidden,
    /// Update to the version can be started.
    Available(Version),
    /// Install running; the target version is kept for retry and labels.
    Running(Stage, Version),
    Done(Version),
    /// Install failed; retry targets the version.
    Failed(String, Version),
}

/// The version a visible banner is about.
pub open spec fn target(s: BannerState) -> Option<Version> {
    match s {
        BannerState::Hidden => None,
        BannerState::Available(v) => Some(v),
        BannerState::Running(_, v) => Some(v),
        BannerState::Done(v) => Some(v),
        BannerState::Failed(_, v) => Some(v),
    }
}

/// The banner after `e`. A running install owns the banner, so a new
/// release waits; the installed release (or an older one) being announced
/// again is no news; progress and failure keep the target version and do
/// not reveal a hidden banner.
pub open spec fn next_state(s: BannerState, e: Event) -> BannerState {
    match e {
        Event::Available(v) => if s is Running {
            s
        } else if s matches BannerState::Done(installed) && version_le(v, installed) {
            s
        } else {
            BannerState::Available(v)
        },
        Event::Stage(stage) => match target(s) {
            Some(v) => BannerState::Running(stage, v),
            None => BannerState::Hidden,
        },
        Event::Done(v) => BannerState::Done(v),
        Event::Failed(message) => match target(s) {
            Some(v) => BannerState::Failed(message, v),
            None => BannerState::Hidden,
        },
    }
}

/// The version a click on the banner button would install: the offered
/// one, or the one whose install failed.
pub open spec fn actionable(s: BannerState) -> Option<Version> {
    match s {
        BannerState::Available(v) => Some(v),
        BannerState::Failed(_, v) => Some(v),
        _ => None,
    }
}

impl BannerState {
    /// Folds an event into the current state.
    pub fn apply(self, event: Event) -> (r: BannerState)
        ensures
            r == next_state(self, event),
    {
        match event {
            Event::Available(v) => match self {
                BannerState::Running(..) => self,
                BannerState::Done(installed) => if v.at_most(&installed) {
                    BannerState::Done(installed)
                } else {
                    BannerState::Available(v)
                },
                _ => BannerState::Available(v),
            },
            Event::Stage(stage) => match self {
                BannerState::Available(v) => BannerState::Running(stage, v),
                BannerState::Running(_, v) => BannerState::Running(stage, v),
                BannerState::Failed(_, v) => BannerState::Running(stage, v),
                BannerState::Done(v) => BannerState::Running(stage, v),
                BannerState::Hidden => BannerState::Hidden,
            },
            Event::Done(v) => BannerState::Done(v),
            Event::Failed(message) => match self {
                BannerState::Available(v) => BannerState::Failed(message, v),
                BannerState::Running(_, v) => BannerState::Failed(message, v),
                BannerState::Failed(_, v) => BannerState::Failed(message, v),
                BannerState::Done(v) => BannerState::Failed(message, v),
                BannerState::Hidden => BannerState::Hidden,
            },
        }
    }

    /// The version a click on the banner button should install, when the
    /// button starts an install (first attempt or retry).
    pub fn actionable_version(&self) -> (r: Option<Version>)
        ensures
            r == actionable(*self),
    {
        match self {
            BannerState::Available(v) => Some(*v),
            BannerState::Failed(_, v) => Some(*v),
            _ => None,
        }
    }
}

/// The banner title for a state.
pub open spec fn banner_title(s: BannerState) -> Seq<char> {
    match s {
        BannerState::Hidden => Seq::empty(),
        BannerState::Available(v) => "FlowMux "@ + version_text(v) + " is available"@,
        BannerState::Running(Stage::Fetching, v) => "Updating to "@ + version_text(v)
            + " — downloading…"@,
        BannerState::Running(Stage::Installing, v) => "Updating to "@ + version_text(v)
            + " — building & installing…"@,
        BannerState::Done(v) => "FlowMux "@ + version_text(v)
            + " installed — takes effect on next launch"@,
        BannerState::Failed(message, v) => "Update to "@ + version_text(v) + " failed: "@
            + message@ + " (see ~/.cache/flowmux/update.log)"@,
    }
}

/// The banner button's label; `None` hides the button.
pub open spec fn banner_button(s: BannerState) -> Option<Seq<char>> {
    match s {
        BannerState::Hidden => None,
        BannerState::Available(_) => Some("Update"@),
        BannerState::Running(..) => None,
        BannerState::Done(_) => Some("Dismiss"@),
        BannerState::Failed(..) => Some("Retry"@),
    }
}

/// Widget text for a banner state: title, button label (`None` hides the
/// button), and whether the banner is revealed.
pub fn banner_props(state: &BannerState) -> (r: (String, Option<&'static str>, bool))
    ensures
        r.0@ == banner_title(*state),
        match r.1 {
            Some(label) => banner_button(*state) == Some(label@),
            None => banner_button(*state) is None,
        },
        r.2 == !(state is Hidden),
{
    match state {
        BannerState::Hidden => (String::new(), None, false),
        BannerState::Available(v) => {
            let mut t = to_string("FlowMux ");
            push_str(&mut t, v.to_string().as_str());
            push_str(&mut t, " is available");
            (t, Some("Update"), true)
        },
        BannerState::Running(Stage::Fetching, v) => {
            let mut t = to_string("Updating to ");
            push_str(&mut t, v.to_string().as_str());
            push_str(&mut t, " — downloading…");
            (t, None, true)
        },
        BannerState::Running(Stage::Installing, v) => {
            let mut t = to_string("Updating to ");
            push_str(&mut t, v.to_string().as_str());
            push_str(&mut t, " — building & installing…");
            (t, None, true)
        },
        BannerState::Done(v) => {
            let mut t = to_string("FlowMux ");
            push_str(&mut t, v.to_string().as_str());
            push_str(&mut t, " installed — takes effect on next launch");
            (t, Some("Dismiss"), true)
        },
        BannerState::Failed(message, v) => {
            let mut t = to_string("Update to ");
            push_str(&mut t, v.to_string().as_str());
            push_str(&mut t, " failed: ");
            push_str(&mut t, message.as_str());
            push_str(&mut t, " (see ~/.cache/flowmux/update.log)");
            (t, Some("Retry"), true)
        },
    }
}

// ------------------------------------------------------------------
// Laws
// ------------------------------------------------------------------

/// A periodic release check never disturbs a running install.
pub proof fn lemma_running_ignores_announcements(stage: Stage, t: Version, v: Version)
    ensures
        next_state(BannerState::Running(stage, t), Event::Available(v)) == BannerState::Running(
            stage,
            t,
        ),
{
}

/// After an install, announcing the installed release (or an older one)
/// changes nothing; a strictly newer one reopens the offer.
pub proof fn lemma_done_reopens_only_for_newer(installed: Version, v: Version)
    ensures
        version_le(v, installed) ==> next_state(BannerState::Done(installed), Event::Available(v))
            == BannerState::Done(installed),
        !version_le(v, installed) ==> next_state(BannerState::Done(installed), Event::Available(v))
            == BannerState::Available(v),
{
}

/// Progress and failure keep the version the banner is about, and never
/// reveal a hidden banner.
pub proof fn lemma_progress_keeps_target(s: BannerState, stage: Stage, message: String)
    ensures
        target(next_state(s, Event::Stage(stage))) == target(s),
        target(next_state(s, Event::Failed(message))) == target(s),
        s is Hidden ==> next_state(s, Event::Stage(stage)) is Hidden,
        s is Hidden ==> next_state(s, Event::Failed(message)) is Hidden,
{
}

/// A failed install can be retried for the same version, and the retry's
/// progress runs against that version.
pub proof fn lemma_failure_is_retryable(s: BannerState, message: String, stage: Stage)
    requires
        !(s is Hidden),
    ensures
        actionable(next_state(s, Event::Failed(message))) == target(s),
        next_state(next_state(s, Event::Failed(message)), Event::Stage(stage))
            == BannerState::Running(stage, target(s)->0),
{
}

/// Only a banner offering an install or a retry has an actionable version,
/// and it is the banner's target.
pub proof fn lemma_actionable_is_target(s: BannerState)
    ensures
        actionable(s) is Some <==> (s is Available || s is Failed),
        actionable(s) is Some ==> actionable(s) == target(s),
{
}

/// Versions are totally ordered by `version_le`.
pub proof fn lemma_version_order(a: Version, b: Version, c: Version)
    ensures
        version_le(a, a),
        version_le(a, b) || version_le(b, a),
        version_le(a, b) && version_le(b, a) ==> a == b,
        version_le(a, b) && version_le(b, c) ==> version_le(a, c),
{
}

} // verus!
