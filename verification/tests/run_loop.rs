use audiophore::bus::Bus;
use audiophore::run_loop::{
    run_adapter, RenderErrorPolicy, RunAction, RunEvent, DEFAULT_TICK_RATE,
};
use audiophore::types::ResolvedFrame;

#[test]
fn run_adapter_ticks_and_reads_latest_frame() {
    let mut bus = Bus::empty();
    let mut reader = bus.reader();
    let (mut connect_calls, mut renders, mut last_tick) = (0, 0, 0);
    let mut event = RunEvent::Started;
    let mut published = 0u64;
    while published < 50 || event != RunEvent::Rendered {
        event = match run_adapter(RenderErrorPolicy::LogAndContinue, event) {
            RunAction::Connect => {
                connect_calls += 1;
                RunEvent::Connected
            }
            RunAction::AwaitTick => {
                for _ in 0..5 {
                    published += 1;
                    let mut frame = ResolvedFrame::default();
                    frame.tick = published;
                    bus.publish(frame);
                }
                RunEvent::Ticked
            }
            RunAction::Render => {
                renders += 1;
                last_tick = reader.snapshot().tick;
                RunEvent::Rendered
            }
            other => panic!("unexpected {other:?}"),
        };
    }
    assert_eq!(connect_calls, 1);
    assert!(renders >= 1, "expected at least one render, got {renders}");
    assert_eq!(last_tick, 50);
}

#[test]
fn a_failed_connection_ends_the_loop() {
    for policy in [RenderErrorPolicy::LogAndContinue, RenderErrorPolicy::LogAndStop] {
        assert_eq!(run_adapter(policy, RunEvent::Started), RunAction::Connect);
        assert_eq!(run_adapter(policy, RunEvent::ConnectFailed), RunAction::Stop);
    }
}

#[test]
fn a_failed_rendering_is_handled_by_policy() {
    let carry_on = RenderErrorPolicy::LogAndContinue;
    assert_eq!(run_adapter(carry_on, RunEvent::RenderFailed), RunAction::AwaitTick);
    let stop = RenderErrorPolicy::LogAndStop;
    assert_eq!(run_adapter(stop, RunEvent::RenderFailed), RunAction::Disconnect);
    assert_eq!(run_adapter(stop, RunEvent::Disconnected), RunAction::Stop);
    assert_eq!(run_adapter(stop, RunEvent::Rendered), RunAction::AwaitTick);
    assert_eq!(RenderErrorPolicy::default(), carry_on);
}

#[test]
fn the_engine_ticks_sixty_times_a_second() {
    assert_eq!(DEFAULT_TICK_RATE, 16_667);
}

/// Runs the loop with renderings that fail from the `n`-th on, for at most
/// `limit` steps, and returns what happened.
fn trace(policy: RenderErrorPolicy, n: usize, limit: usize) -> Vec<RunEvent> {
    let mut events = vec![RunEvent::Started];
    let mut renders = 0;
    while events.len() < limit {
        let event = match run_adapter(policy, events[events.len() - 1]) {
            RunAction::Connect => RunEvent::Connected,
            RunAction::AwaitTick => RunEvent::Ticked,
            RunAction::Render => {
                renders += 1;
                if renders < n {
                    RunEvent::Rendered
                } else {
                    RunEvent::RenderFailed
                }
            }
            RunAction::Disconnect => RunEvent::Disconnected,
            RunAction::Stop => return events,
        };
        events.push(event);
    }
    events
}

#[test]
fn a_loop_that_is_to_stop_disconnects_first() {
    assert_eq!(
        trace(RenderErrorPolicy::LogAndStop, 2, 100),
        vec![
            RunEvent::Started,
            RunEvent::Connected,
            RunEvent::Ticked,
            RunEvent::Rendered,
            RunEvent::Ticked,
            RunEvent::RenderFailed,
            RunEvent::Disconnected,
        ]
    );
}

#[test]
fn a_loop_that_is_to_continue_goes_on() {
    let events = trace(RenderErrorPolicy::LogAndContinue, 2, 100);
    assert_eq!(events.len(), 100);
    assert_eq!(events.iter().filter(|e| **e == RunEvent::Connected).count(), 1);
    for pair in events.windows(2) {
        let rendered = pair[1] == RunEvent::Rendered || pair[1] == RunEvent::RenderFailed;
        assert_eq!(rendered, pair[0] == RunEvent::Ticked);
    }
}
