//! Fan-out ordering and the ball-prediction pairing rule of the dispatcher,
//! and the hivemind's tick coalescer.
use rlbot::dispatch::fan_out;
use rlbot::dispatch::Dispatcher;
use rlbot::dispatch::Routed;
use rlbot::dispatch::TickCoalescer;
use rlbot::messages::BallPrediction;
use rlbot::messages::ControllableTeamInfo;
use rlbot::messages::CoreMessage;
use rlbot::messages::GamePacket;
use rlbot::messages::MatchComm;

fn tick(n: u8) -> CoreMessage {
    CoreMessage::GamePacket(GamePacket { data: vec![n] })
}

fn comm(n: u8) -> CoreMessage {
    CoreMessage::MatchComm(MatchComm { data: vec![n] })
}

fn pred(n: u8) -> CoreMessage {
    CoreMessage::BallPrediction(BallPrediction { data: vec![n] })
}

fn deliver_all(d: &mut Dispatcher, inboxes: &mut Vec<Vec<CoreMessage>>, msgs: Vec<CoreMessage>) {
    for m in msgs {
        match d.route(m) {
            Routed::Deliver(v) => fan_out(inboxes, &v),
            Routed::Shutdown(v) => fan_out(inboxes, &v),
            Routed::Violation => panic!("unexpected protocol violation"),
        }
    }
}

#[test]
fn fan_out_preserves_arrival_order_in_every_inbox() {
    let mut d = Dispatcher::new();
    let mut inboxes: Vec<Vec<CoreMessage>> = vec![Vec::new(), Vec::new(), Vec::new()];
    deliver_all(&mut d, &mut inboxes, vec![tick(1), comm(7), tick(2)]);
    let expected = vec![tick(1), comm(7), tick(2)];
    for inbox in &inboxes {
        assert_eq!(inbox, &expected);
    }
}

#[test]
fn prediction_is_delivered_immediately_before_its_tick() {
    let mut d = Dispatcher::new();
    let mut inboxes: Vec<Vec<CoreMessage>> = vec![Vec::new(), Vec::new()];
    deliver_all(&mut d, &mut inboxes, vec![pred(9), tick(1)]);
    let expected = vec![pred(9), tick(1)];
    for inbox in &inboxes {
        assert_eq!(inbox, &expected);
    }
}

#[test]
fn newer_prediction_supersedes_a_held_one() {
    let mut d = Dispatcher::new();
    let mut inboxes: Vec<Vec<CoreMessage>> = vec![Vec::new()];
    deliver_all(&mut d, &mut inboxes, vec![pred(1), pred(2), tick(3)]);
    assert_eq!(inboxes[0], vec![pred(2), tick(3)]);
}

#[test]
fn prediction_is_consumed_by_one_tick_only() {
    let mut d = Dispatcher::new();
    let mut inboxes: Vec<Vec<CoreMessage>> = vec![Vec::new()];
    deliver_all(&mut d, &mut inboxes, vec![pred(1), tick(1), tick(2)]);
    assert_eq!(inboxes[0], vec![pred(1), tick(1), tick(2)]);
}

#[test]
fn disconnect_routes_as_shutdown() {
    let mut d = Dispatcher::new();
    match d.route(CoreMessage::DisconnectSignal) {
        Routed::Shutdown(v) => assert_eq!(v, vec![CoreMessage::DisconnectSignal]),
        _ => panic!("the disconnect signal must end dispatching"),
    }
}

#[test]
fn handshake_message_after_handshake_is_a_violation() {
    let mut d = Dispatcher::new();
    let msg = CoreMessage::ControllableTeamInfo(ControllableTeamInfo {
        team: 0,
        controllables: vec![],
    });
    assert!(matches!(d.route(msg), Routed::Violation));
}

#[test]
fn coalescer_pairs_the_last_prediction_with_the_last_tick() {
    let mut c = TickCoalescer::new();
    // a comm passes through at once
    assert_eq!(c.absorb(comm(1)), Some(comm(1)));
    // predictions and ticks are held
    assert_eq!(c.absorb(pred(1)), None);
    assert_eq!(c.absorb(pred(2)), None);
    assert_eq!(c.absorb(tick(1)), None);
    assert_eq!(c.absorb(tick(2)), None);
    assert_eq!(c.flush(), vec![pred(2), tick(2)]);
    // a flush clears what it delivered
    assert_eq!(c.flush(), Vec::<CoreMessage>::new());
}

#[test]
fn coalescer_keeps_a_prediction_until_a_tick_arrives() {
    let mut c = TickCoalescer::new();
    assert_eq!(c.absorb(pred(5)), None);
    // no tick yet: nothing is delivered, the prediction stays
    assert_eq!(c.flush(), Vec::<CoreMessage>::new());
    assert_eq!(c.absorb(tick(6)), None);
    assert_eq!(c.flush(), vec![pred(5), tick(6)]);
}
