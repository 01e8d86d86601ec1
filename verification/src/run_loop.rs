//! The loop that drives an output adapter.
//!
//! The loop connects once, then renders the latest frame at every tick. Each
//! step is decided here from what happened last; whoever runs the loop carries
//! it out and reports back.

use vstd::prelude::*;

verus! {

/// Microseconds between two ticks of the engine by default: 60 a second.
pub const DEFAULT_TICK_RATE: u64 = 16_667;

/// What to do when a frame cannot be rendered.
#[derive(Clone, Copy, Debug, Eq, PartialEq, Structural)]
pub enum RenderErrorPolicy {
    /// Go on with the next tick.
    LogAndContinue,
    /// Leave the loop.
    LogAndStop,
}

impl Default for RenderErrorPolicy {
    /// Goes on with the next tick.
    fn default() -> (result: RenderErrorPolicy)
        ensures
            result == RenderErrorPolicy::LogAndContinue,
    {
        RenderErrorPolicy::LogAndContinue
    }
}

/// What happened last.
#[derive(Clone, Copy, Debug, Eq, PartialEq, Structural)]
pub enum RunEvent {
    /// The loop was entered.
    Started,
    /// The adapter is connected.
    Connected,
    /// The adapter could not connect.
    ConnectFailed,
    /// The time for a frame has come.
    Ticked,
    /// The latest frame was rendered.
    Rendered,
    /// The latest frame could not be rendered.
    RenderFailed,
    /// The adapter is disconnected, cleanly or not.
    Disconnected,
}

/// What to do next.
#[derive(Clone, Copy, Debug, Eq, PartialEq, Structural)]
pub enum RunAction {
    /// Connect the adapter.
    Connect,
    /// Wait for the next tick.
    AwaitTick,
    /// Render the latest frame.
    Render,
    /// Disconnect the adapter.
    Disconnect,
    /// Leave the loop.
    Stop,
}

/// What to do after an event.
pub open spec fn next_action(policy: RenderErrorPolicy, event: RunEvent) -> RunAction {
    match event {
        RunEvent::Started => RunAction::Connect,
        RunEvent::Connected => RunAction::AwaitTick,
        RunEvent::ConnectFailed => RunAction::Stop,
        RunEvent::Ticked => RunAction::Render,
        RunEvent::Rendered => RunAction::AwaitTick,
        RunEvent::RenderFailed => match policy {
            RenderErrorPolicy::LogAndContinue => RunAction::AwaitTick,
            RenderErrorPolicy::LogAndStop => RunAction::Disconnect,
        },
        RunEvent::Disconnected => RunAction::Stop,
    }
}

/// Decides what to do after an event.
pub fn run_adapter(policy: RenderErrorPolicy, event: RunEvent) -> (result: RunAction)
    ensures
        result == next_action(policy, event),
{
    match event {
        RunEvent::Started => RunAction::Connect,
        RunEvent::Connected => RunAction::AwaitTick,
        RunEvent::ConnectFailed => RunAction::Stop,
        RunEvent::Ticked => RunAction::Render,
        RunEvent::Rendered => RunAction::AwaitTick,
        RunEvent::RenderFailed => match policy {
            RenderErrorPolicy::LogAndContinue => RunAction::AwaitTick,
            RenderErrorPolicy::LogAndStop => RunAction::Disconnect,
        },
        RunEvent::Disconnected => RunAction::Stop,
    }
}

/// Whether an event can come of an action.
pub open spec fn comes_of(action: RunAction, event: RunEvent) -> bool {
    match action {
        RunAction::Connect => event == RunEvent::Connected || event == RunEvent::ConnectFailed,
        RunAction::AwaitTick => event == RunEvent::Ticked,
        RunAction::Render => event == RunEvent::Rendered || event == RunEvent::RenderFailed,
        RunAction::Disconnect => event == RunEvent::Disconnected,
        RunAction::Stop => false,
    }
}

/// Whether events are a run of the loop: it is entered, and every event comes
/// of the action before it.
pub open spec fn is_run(policy: RenderErrorPolicy, events: Seq<RunEvent>) -> bool {
    &&& events.len() > 0
    &&& events[0] == RunEvent::Started
    &&& forall|i: int|
        1 <= i < events.len() ==> comes_of(
            next_action(policy, events[i - 1]),
            #[trigger] events[i],
        )
}

/// Before anything else the adapter connects, and a run whose adapter could not
/// connect is over.
pub proof fn lemma_connects_first(policy: RenderErrorPolicy, events: Seq<RunEvent>)
    requires
        is_run(policy, events),
        events.len() > 1,
    ensures
        events[1] == RunEvent::Connected || (events[1] == RunEvent::ConnectFailed && events.len()
            == 2),
{
    if events.len() > 2 {
        assert(comes_of(next_action(policy, events[1]), events[2]));
    }
}

/// An adapter connects once.
pub proof fn lemma_connects_once(policy: RenderErrorPolicy, events: Seq<RunEvent>, i: int)
    requires
        is_run(policy, events),
        1 < i < events.len(),
    ensures
        events[i] != RunEvent::Started,
        events[i] != RunEvent::Connected,
        events[i] != RunEvent::ConnectFailed,
    decreases i,
{
    if i > 2 {
        lemma_connects_once(policy, events, i - 1);
    }
}

/// There is one rendering for each tick, right after it.
pub proof fn lemma_renders_once_for_each_tick(
    policy: RenderErrorPolicy,
    events: Seq<RunEvent>,
    i: int,
)
    requires
        is_run(policy, events),
        1 <= i < events.len(),
    ensures
        (events[i] == RunEvent::Rendered || events[i] == RunEvent::RenderFailed) <==> events[i - 1]
            == RunEvent::Ticked,
{
}

/// A loop that is to continue never stops once its adapter is connected,
/// whatever cannot be rendered.
pub proof fn lemma_continues_after_errors(events: Seq<RunEvent>, i: int)
    requires
        is_run(RenderErrorPolicy::LogAndContinue, events),
        1 <= i < events.len(),
        events[1] == RunEvent::Connected,
    ensures
        next_action(RenderErrorPolicy::LogAndContinue, events[i]) == RunAction::AwaitTick
            || next_action(RenderErrorPolicy::LogAndContinue, events[i]) == RunAction::Render,
    decreases i,
{
    if i > 1 {
        lemma_continues_after_errors(events, i - 1);
    }
}

/// A loop that is to stop disconnects its adapter after the first frame that
/// cannot be rendered, and is over with that.
pub proof fn lemma_stops_after_an_error(events: Seq<RunEvent>, i: int)
    requires
        is_run(RenderErrorPolicy::LogAndStop, events),
        0 <= i < events.len(),
        events[i] == RunEvent::RenderFailed,
    ensures
        events.len() <= i + 2,
        i + 1 < events.len() ==> events[i + 1] == RunEvent::Disconnected,
{
    if i + 1 < events.len() {
        if i + 2 < events.len() {
            assert(comes_of(
                next_action(RenderErrorPolicy::LogAndStop, events[i + 2 - 1]),
                events[i + 2],
            ));
        }
    }
}

/// After connecting, and after every frame that was rendered, the loop waits for
/// the next tick; after a failed connection or a disconnection it is over.
pub proof fn lemma_what_follows(policy: RenderErrorPolicy, events: Seq<RunEvent>, i: int)
    requires
        is_run(policy, events),
        0 <= i < events.len() - 1,
    ensures
        events[0] == RunEvent::Started,
        events[i] == RunEvent::Connected || events[i] == RunEvent::Rendered ==> events[i + 1]
            == RunEvent::Ticked,
        events[i] == RunEvent::RenderFailed && policy == RenderErrorPolicy::LogAndContinue
            ==> events[i + 1] == RunEvent::Ticked,
        events[i] == RunEvent::RenderFailed && policy == RenderErrorPolicy::LogAndStop
            ==> events[i + 1] == RunEvent::Disconnected,
        events[i] == RunEvent::Ticked ==> events[i + 1] == RunEvent::Rendered || events[i + 1]
            == RunEvent::RenderFailed,
        events[i] == RunEvent::Started ==> events[i + 1] == RunEvent::Connected || events[i + 1]
            == RunEvent::ConnectFailed,
        events[i] != RunEvent::ConnectFailed && events[i] != RunEvent::Disconnected,
{
    assert(comes_of(next_action(policy, events[i + 1 - 1]), events[i + 1]));
}

} // verus!
