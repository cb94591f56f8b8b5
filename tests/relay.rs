use edge_tunnel::{Direction, RelayAction, RelayEngine, RelayEvent};

const C2U: Direction = Direction::ClientToUpstream;
const U2C: Direction = Direction::UpstreamToClient;

fn forwarded(actions: &[RelayAction], d: Direction) -> Vec<u8> {
    let mut out = Vec::new();
    for a in actions {
        if let RelayAction::Forward(d2, b) = a {
            if *d2 == d {
                out.extend_from_slice(b);
            }
        }
    }
    out
}

#[test]
fn bytes_cross_in_order_both_ways() {
    let mut r = RelayEngine::new();
    let mut acts = Vec::new();
    for e in vec![
        RelayEvent::Received(C2U, b"ab".to_vec()),
        RelayEvent::Received(U2C, b"12".to_vec()),
        RelayEvent::Received(C2U, b"cd".to_vec()),
        RelayEvent::Received(U2C, b"34".to_vec()),
    ] {
        acts.extend(r.on_event(e));
    }
    assert_eq!(forwarded(&acts, C2U), b"abcd".to_vec());
    assert_eq!(forwarded(&acts, U2C), b"1234".to_vec());
    assert!(!r.is_finished());
}

#[test]
fn half_close_keeps_other_direction() {
    let mut r = RelayEngine::new();
    assert_eq!(r.on_event(RelayEvent::Received(C2U, b"abc".to_vec())), vec![RelayAction::Forward(C2U, b"abc".to_vec())]);
    assert_eq!(r.on_event(RelayEvent::Ended(C2U)), vec![RelayAction::ShutdownWrite(C2U)]);
    assert!(!r.is_finished());
    assert_eq!(r.on_event(RelayEvent::Received(C2U, b"late".to_vec())), vec![]);
    assert_eq!(r.on_event(RelayEvent::Received(U2C, b"xyz".to_vec())), vec![RelayAction::Forward(U2C, b"xyz".to_vec())]);
    assert_eq!(
        r.on_event(RelayEvent::Ended(U2C)),
        vec![RelayAction::ShutdownWrite(U2C), RelayAction::Finish(None)]
    );
    assert!(r.is_finished());
    assert_eq!(r.on_event(RelayEvent::Ended(U2C)), vec![]);
}

#[test]
fn failure_is_recorded_without_stopping_other_direction() {
    let mut r = RelayEngine::new();
    assert_eq!(r.on_event(RelayEvent::Failed(U2C)), vec![RelayAction::ShutdownWrite(U2C)]);
    assert_eq!(r.on_event(RelayEvent::Received(C2U, b"q".to_vec())), vec![RelayAction::Forward(C2U, b"q".to_vec())]);
    assert_eq!(
        r.on_event(RelayEvent::Failed(C2U)),
        vec![RelayAction::ShutdownWrite(C2U), RelayAction::Finish(Some(U2C))]
    );
}
