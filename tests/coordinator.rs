use p2p_chatter::coordinator::Coordinator;
use p2p_chatter::holepunch::{LinkEvent, LinkNotice, Phase};

#[test]
fn relay_reservation_then_hole_punch_goes_direct() {
    // B holds a reservation on relay R; A reaches B through R, both sides
    // punch, and later traffic uses the direct connection, not R.
    let b = vec![0xb];
    let mut a_side = Coordinator::new(5_000);
    a_side.handle(&b, LinkEvent::RequestReservation);
    a_side.handle(&b, LinkEvent::ReservationAccepted { expiry: 60_000 });
    a_side.handle(&b, LinkEvent::CircuitEstablished);
    assert!(a_side.session(&b).unwrap().relayed);
    a_side.handle(&b, LinkEvent::PunchStarted { now: 1_000 });
    let n = a_side.handle(&b, LinkEvent::DirectSucceeded);
    assert_eq!(n, LinkNotice::DirectConnectionEstablished);
    let s = a_side.session(&b).unwrap();
    assert_eq!(s.phase, Phase::DirectConnected);
    assert!(s.direct);
    assert!(!s.relayed);
}

#[test]
fn sessions_are_per_peer() {
    let mut c = Coordinator::new(100);
    let p = vec![1];
    let q = vec![2];
    c.handle(&p, LinkEvent::RequestReservation);
    assert_eq!(c.session(&p).unwrap().phase, Phase::ReservationRequested);
    assert!(c.session(&q).is_none());
    c.handle(&q, LinkEvent::Tick { now: 5 });
    assert_eq!(c.session(&q).unwrap().phase, Phase::Idle);
    assert_eq!(c.session(&p).unwrap().phase, Phase::ReservationRequested);
    assert_eq!(c.session(&q).unwrap().punch_window, 100);
}

#[test]
fn duplicate_punch_is_coalesced() {
    let mut c = Coordinator::new(1_000);
    let p = vec![7, 7];
    c.handle(&p, LinkEvent::RequestReservation);
    c.handle(&p, LinkEvent::ReservationAccepted { expiry: 9_999 });
    c.handle(&p, LinkEvent::CircuitEstablished);
    c.handle(&p, LinkEvent::PunchStarted { now: 10 });
    c.handle(&p, LinkEvent::PunchStarted { now: 500 });
    assert_eq!(c.session(&p).unwrap().deadline, 1_010);
    assert_eq!(c.handle(&p, LinkEvent::Tick { now: 1_010 }), LinkNotice::RelayFallbackActive);
    let s = c.session(&p).unwrap();
    assert_eq!(s.phase, Phase::Failed);
    assert!(s.relayed);
}

#[test]
fn cancel_drops_session() {
    let mut c = Coordinator::new(10);
    let p = vec![3];
    assert!(!c.cancel(&p));
    c.handle(&p, LinkEvent::RequestReservation);
    assert!(c.cancel(&p));
    assert!(c.session(&p).is_none());
    c.handle(&p, LinkEvent::Tick { now: 1 });
    assert_eq!(c.session(&p).unwrap().phase, Phase::Idle);
}
