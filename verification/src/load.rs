//! Loading a registry from its configuration file: the messages of a failed load, and the
//! order in which a load downloads the file first where it is missing and retries once.
use vstd::prelude::*;

use crate::text::{chars_of, push_all, string_of};

verus! {

/// `cause`, followed by `". "` and `hint` where the hint is not empty.
pub open spec fn spec_with_hint(cause: Seq<char>, hint: Seq<char>) -> Seq<char> {
    if hint.len() == 0 {
        cause
    } else {
        cause + ". "@ + hint
    }
}

/// The message of a failed load: the cause, then the resolution hint where there is one.
pub fn with_hint(cause: &str, hint: &str) -> (r: String)
    ensures
        r@ == spec_with_hint(cause@, hint@),
{
    let mut out = chars_of(cause);
    let h = chars_of(hint);
    if h.len() > 0 {
        push_all(&mut out, &chars_of(". "));
        push_all(&mut out, &h);
    }
    string_of(&out)
}

/// The message of a configuration file that could not be parsed:
/// `"Failed to parse <path>: <cause>"`, then the resolution hint where there is one.
pub fn parse_failure_message(path: &str, cause: &str, hint: &str) -> (r: String)
    ensures
        r@ == spec_with_hint("Failed to parse "@ + path@ + ": "@ + cause@, hint@),
{
    let mut out = chars_of("Failed to parse ");
    push_all(&mut out, &chars_of(path));
    push_all(&mut out, &chars_of(": "));
    push_all(&mut out, &chars_of(cause));
    let message = string_of(&out);
    with_hint(message.as_str(), hint)
}

/// Where a load with download and retry stands.
#[derive(Debug, Clone, Copy, PartialEq, Eq)]
pub enum LoadPhase {
    /// Nothing has been done yet.
    Start,
    /// The file was missing and is being downloaded.
    FirstUpdate,
    /// The file is being loaded for the first time.
    FirstLoad,
    /// The first load failed and the file is being downloaded again.
    RetryUpdate,
    /// The file is being loaded once more.
    RetryLoad,
    /// The load is over.
    Done,
}

/// What the last action of a load came to.
#[derive(Debug, Clone, Copy, PartialEq, Eq)]
pub enum LoadEvent {
    /// The load started; the file exists or not.
    Started { file_exists: bool },
    /// A download ended, successfully or not.
    Updated { ok: bool },
    /// A load of the file ended, successfully or not.
    Loaded { ok: bool },
}

/// What a load does next.
#[derive(Debug, Clone, Copy, PartialEq, Eq)]
pub enum LoadAction {
    /// Download the configuration file.
    Update,
    /// Load the registry from the configuration file.
    Load,
    /// Stop, and return what the last download or load gave.
    ReturnLast,
}

/// The next phase and action of a load: a missing file is downloaded before the first
/// load; a failed load downloads the file once more and loads again; a failed download,
/// a successful load and the second load end the run.
pub open spec fn spec_load_step(phase: LoadPhase, event: LoadEvent) -> (LoadPhase, LoadAction) {
    match (phase, event) {
        (LoadPhase::Start, LoadEvent::Started { file_exists }) => if file_exists {
            (LoadPhase::FirstLoad, LoadAction::Load)
        } else {
            (LoadPhase::FirstUpdate, LoadAction::Update)
        },
        (LoadPhase::FirstUpdate, LoadEvent::Updated { ok }) => if ok {
            (LoadPhase::FirstLoad, LoadAction::Load)
        } else {
            (LoadPhase::Done, LoadAction::ReturnLast)
        },
        (LoadPhase::FirstLoad, LoadEvent::Loaded { ok }) => if ok {
            (LoadPhase::Done, LoadAction::ReturnLast)
        } else {
            (LoadPhase::RetryUpdate, LoadAction::Update)
        },
        (LoadPhase::RetryUpdate, LoadEvent::Updated { ok }) => if ok {
            (LoadPhase::RetryLoad, LoadAction::Load)
        } else {
            (LoadPhase::Done, LoadAction::ReturnLast)
        },
        _ => (LoadPhase::Done, LoadAction::ReturnLast),
    }
}

/// Decides the next phase and action of a load from where it stands and what the last
/// action came to.
pub fn load_step(phase: LoadPhase, event: LoadEvent) -> (r: (LoadPhase, LoadAction))
    ensures
        r == spec_load_step(phase, event),
{
    match (phase, event) {
        (LoadPhase::Start, LoadEvent::Started { file_exists }) => if file_exists {
            (LoadPhase::FirstLoad, LoadAction::Load)
        } else {
            (LoadPhase::FirstUpdate, LoadAction::Update)
        },
        (LoadPhase::FirstUpdate, LoadEvent::Updated { ok }) => if ok {
            (LoadPhase::FirstLoad, LoadAction::Load)
        } else {
            (LoadPhase::Done, LoadAction::ReturnLast)
        },
        (LoadPhase::FirstLoad, LoadEvent::Loaded { ok }) => if ok {
            (LoadPhase::Done, LoadAction::ReturnLast)
        } else {
            (LoadPhase::RetryUpdate, LoadAction::Update)
        },
        (LoadPhase::RetryUpdate, LoadEvent::Updated { ok }) => if ok {
            (LoadPhase::RetryLoad, LoadAction::Load)
        } else {
            (LoadPhase::Done, LoadAction::ReturnLast)
        },
        _ => (LoadPhase::Done, LoadAction::ReturnLast),
    }
}

/// The actions of a run from `phase` on, each event answering the action before it, up
/// to the end of the run.
pub open spec fn run_actions(phase: LoadPhase, events: Seq<LoadEvent>) -> Seq<LoadAction>
    decreases events.len(),
{
    if events.len() == 0 || phase == LoadPhase::Done {
        Seq::empty()
    } else {
        let (next, action) = spec_load_step(phase, events[0]);
        seq![action] + run_actions(next, events.drop_first())
    }
}

/// How often `a` occurs in `s`.
pub open spec fn occurrences(s: Seq<LoadAction>, a: LoadAction) -> nat
    decreases s.len(),
{
    if s.len() == 0 {
        0
    } else {
        (if s[0] == a { 1nat } else { 0nat }) + occurrences(s.drop_first(), a)
    }
}

/// How many downloads a run from `phase` may still make.
pub open spec fn updates_left(phase: LoadPhase) -> nat {
    match phase {
        LoadPhase::Start => 2,
        LoadPhase::FirstUpdate => 1,
        LoadPhase::FirstLoad => 1,
        _ => 0,
    }
}

/// How many loads a run from `phase` may still make.
pub open spec fn loads_left(phase: LoadPhase) -> nat {
    match phase {
        LoadPhase::Start => 2,
        LoadPhase::FirstUpdate => 2,
        LoadPhase::FirstLoad => 1,
        LoadPhase::RetryUpdate => 1,
        _ => 0,
    }
}

/// A run from `phase` downloads and loads no more often than the phase leaves room for.
proof fn lemma_run_bounded(phase: LoadPhase, events: Seq<LoadEvent>)
    ensures
        occurrences(run_actions(phase, events), LoadAction::Update) <= updates_left(phase),
        occurrences(run_actions(phase, events), LoadAction::Load) <= loads_left(phase),
    decreases events.len(),
{
    if events.len() > 0 && phase != LoadPhase::Done {
        let (next, action) = spec_load_step(phase, events[0]);
        lemma_run_bounded(next, events.drop_first());
        let s = run_actions(phase, events);
        assert(s[0] == action);
        assert(s.drop_first() =~= run_actions(next, events.drop_first()));
    }
}

/// A load downloads the configuration file at most twice and loads it at most twice, and a
/// failed download ends the run.
pub proof fn lemma_load_bounded(events: Seq<LoadEvent>)
    ensures
        occurrences(run_actions(LoadPhase::Start, events), LoadAction::Update) <= 2,
        occurrences(run_actions(LoadPhase::Start, events), LoadAction::Load) <= 2,
        spec_load_step(LoadPhase::FirstUpdate, LoadEvent::Updated { ok: false }) == (
            LoadPhase::Done,
            LoadAction::ReturnLast,
        ),
        spec_load_step(LoadPhase::RetryUpdate, LoadEvent::Updated { ok: false }) == (
            LoadPhase::Done,
            LoadAction::ReturnLast,
        ),
        forall|p: LoadPhase, e: LoadEvent|
            (#[trigger] spec_load_step(p, e)).1 == LoadAction::ReturnLast <==> spec_load_step(p, e).0
                == LoadPhase::Done,
{
    lemma_run_bounded(LoadPhase::Start, events);
}

} // verus!
