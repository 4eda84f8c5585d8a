use cloudflare_quick_tunnel::supervisor::{
    backoff_secs, Reactor, ReactorAction, ReactorEvent, SupervisorExit,
};
use cloudflare_quick_tunnel::TunnelError;

fn wait(action: ReactorAction) -> u64 {
    match action {
        ReactorAction::Reconnect { delay_secs, replace_existing } => {
            assert!(replace_existing);
            delay_secs
        }
        _ => panic!("expected another attempt"),
    }
}

#[test]
fn backoff_doubles_up_to_the_cap() {
    let waits: Vec<_> = (0..8).map(backoff_secs).collect();
    assert_eq!(waits, vec![1, 2, 4, 8, 16, 30, 30, 30]);
    assert_eq!(backoff_secs(u32::MAX), 30);
}

#[test]
fn lost_connection_is_tried_ten_times() {
    let mut r = Reactor::new();
    let mut waits = vec![wait(r.step(ReactorEvent::Exited(SupervisorExit::ConnectionLost)))];
    for _ in 1..10 {
        waits.push(wait(r.step(ReactorEvent::AttemptFailed)));
    }
    assert_eq!(waits, vec![1, 2, 4, 8, 16, 30, 30, 30, 30, 30]);
    match r.step(ReactorEvent::AttemptFailed) {
        ReactorAction::GiveUp(e) => {
            assert!(matches!(e, TunnelError::PermanentFailure(10)));
            assert_eq!(
                e.message(),
                "connection lost; supervisor giving up after 10 attempts"
            );
        }
        _ => panic!("the attempts are used up"),
    }
}

#[test]
fn registration_starts_afresh() {
    let mut r = Reactor::new();
    r.step(ReactorEvent::Exited(SupervisorExit::ConnectionLost));
    r.step(ReactorEvent::AttemptFailed);
    assert_eq!(wait(r.step(ReactorEvent::AttemptFailed)), 4);
    assert!(matches!(r.step(ReactorEvent::Registered), ReactorAction::Supervise));
    assert_eq!(r.attempts, 0);
    assert_eq!(wait(r.step(ReactorEvent::Exited(SupervisorExit::ConnectionLost))), 1);
}

#[test]
fn shutdown_stops() {
    let mut r = Reactor::new();
    assert!(matches!(
        r.step(ReactorEvent::Exited(SupervisorExit::Shutdown)),
        ReactorAction::Stop
    ));
}
