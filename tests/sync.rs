use polybar_iconography::sync::{step, Action, Event, Phase};

#[test]
fn start_fetches_once() {
    assert_eq!(step(Phase::Starting, Event::Started), (Phase::Fetching, Action::Fetch));
}

#[test]
fn wake_drains_before_fetch() {
    assert_eq!(step(Phase::Idle, Event::Woken), (Phase::Draining, Action::Drain));
    assert_eq!(step(Phase::Draining, Event::Drained), (Phase::Fetching, Action::Fetch));
}

#[test]
fn fetch_outcomes() {
    assert_eq!(step(Phase::Fetching, Event::Fetched), (Phase::Idle, Action::Render));
    assert_eq!(step(Phase::Fetching, Event::FetchFailed), (Phase::Idle, Action::Report));
    assert_eq!(step(Phase::Idle, Event::Done), (Phase::Idle, Action::Wait));
}

#[test]
fn a_full_cycle() {
    let mut phase = Phase::Starting;
    let mut actions = vec![];
    for event in [
        Event::Started,
        Event::Fetched,
        Event::Done,
        Event::Woken,
        Event::Drained,
        Event::FetchFailed,
        Event::Done,
    ] {
        let (next, action) = step(phase, event);
        phase = next;
        actions.push(action);
    }
    assert_eq!(
        actions,
        vec![
            Action::Fetch,
            Action::Render,
            Action::Wait,
            Action::Drain,
            Action::Fetch,
            Action::Report,
            Action::Wait
        ]
    );
    assert_eq!(phase, Phase::Idle);
}

#[test]
fn stray_events_do_not_fetch() {
    assert_eq!(step(Phase::Idle, Event::Drained), (Phase::Idle, Action::Wait));
    assert_eq!(step(Phase::Draining, Event::Woken), (Phase::Draining, Action::Wait));
    assert_eq!(step(Phase::Fetching, Event::Woken), (Phase::Fetching, Action::Wait));
}
