use vstd::prelude::*;

verus! {

/// Where the refresh loop stands.
#[derive(Clone, Copy, Debug, PartialEq, Eq, Structural)]
pub enum Phase {
    /// Nothing drawn yet.
    Starting,
    /// Blocked on both event sources.
    Idle,
    /// Woken; discarding every queued event of both sources.
    Draining,
    /// Asking the window manager for a full snapshot.
    Fetching,
}

/// What the loop observed.
#[derive(Clone, Copy, Debug, PartialEq, Eq, Structural)]
pub enum Event {
    /// The loop began.
    Started,
    /// Either source became readable.
    Woken,
    /// Both sources hold nothing more.
    Drained,
    /// A snapshot arrived.
    Fetched,
    /// The snapshot request failed.
    FetchFailed,
    /// The last render or report is written.
    Done,
}

/// What the loop does next.
#[derive(Clone, Copy, Debug, PartialEq, Eq, Structural)]
pub enum Action {
    /// Request a full snapshot.
    Fetch,
    /// Read and discard all pending events of both sources, without blocking.
    Drain,
    /// Render the snapshot and print it.
    Render,
    /// Write the fetch error to the diagnostic channel.
    Report,
    /// Block until either source is readable.
    Wait,
}

/// The loop's transition: a first fetch at start; on a wake, drain both
/// sources before fetching, so that a burst of changes gives one fresh
/// snapshot; render a snapshot, report a failed fetch, then wait again.
/// Any other event leaves the phase as it is and waits.
pub open spec fn transition(p: Phase, e: Event) -> (Phase, Action) {
    match (p, e) {
        (Phase::Starting, Event::Started) => (Phase::Fetching, Action::Fetch),
        (Phase::Idle, Event::Woken) => (Phase::Draining, Action::Drain),
        (Phase::Draining, Event::Drained) => (Phase::Fetching, Action::Fetch),
        (Phase::Fetching, Event::Fetched) => (Phase::Idle, Action::Render),
        (Phase::Fetching, Event::FetchFailed) => (Phase::Idle, Action::Report),
        _ => (p, Action::Wait),
    }
}

/// The next phase and action of the loop.
pub fn step(p: Phase, e: Event) -> (r: (Phase, Action))
    ensures
        r == transition(p, e),
        r.1 == Action::Fetch ==> (p == Phase::Starting && e == Event::Started) || (p
            == Phase::Draining && e == Event::Drained),
        r.1 == Action::Render ==> p == Phase::Fetching && e == Event::Fetched,
{
    match (p, e) {
        (Phase::Starting, Event::Started) => (Phase::Fetching, Action::Fetch),
        (Phase::Idle, Event::Woken) => (Phase::Draining, Action::Drain),
        (Phase::Draining, Event::Drained) => (Phase::Fetching, Action::Fetch),
        (Phase::Fetching, Event::Fetched) => (Phase::Idle, Action::Render),
        (Phase::Fetching, Event::FetchFailed) => (Phase::Idle, Action::Report),
        _ => (p, Action::Wait),
    }
}

} // verus!
