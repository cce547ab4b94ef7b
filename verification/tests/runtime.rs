//! The coordinator state machine: disconnect shutdown, worker isolation, the
//! single-writer batch funnel, and the end-to-end handshake scenario.
use rlbot::build_core_packet_payload;
use rlbot::build_packet_payload;
use rlbot::build_packets_payload;
use rlbot::codec::parse_core_payload;
use rlbot::codec::parse_interface_payload;
use rlbot::handshake::collect_starting_info;
use rlbot::messages::ConnectionSettings;
use rlbot::messages::ControllableInfo;
use rlbot::messages::ControllableTeamInfo;
use rlbot::messages::CoreMessage;
use rlbot::messages::FieldInfo;
use rlbot::messages::GamePacket;
use rlbot::messages::InterfaceMessage;
use rlbot::messages::MatchComm;
use rlbot::messages::MatchConfiguration;
use rlbot::messages::PlayerInput;
use rlbot::runtime::Action;
use rlbot::runtime::Coordinator;
use rlbot::runtime::Event;
use rlbot::runtime::InitCollector;
use rlbot::util::PacketQueue;
use rlbot::wire::parse_frame_at;
use rlbot::agents::AgentError;

fn tick(n: u8) -> CoreMessage {
    CoreMessage::GamePacket(GamePacket { data: vec![n] })
}

#[test]
fn disconnect_stops_all_further_sends_and_run_succeeds_after_joins() {
    let mut c = Coordinator::new(2);

    // steady state: ticks are delivered, batches are sent
    match c.step(Event::Incoming(tick(1))).unwrap() {
        Action::Deliver(v) => assert_eq!(v, vec![tick(1)]),
        _ => panic!("a tick must be delivered"),
    }
    let batch = vec![InterfaceMessage::PingResponse];
    match c.step(Event::WorkerBatch(batch.clone())).unwrap() {
        Action::Send(b) => assert_eq!(b, batch),
        _ => panic!("a worker batch must be sent"),
    }

    // the disconnect signal is the last thing delivered
    match c.step(Event::Incoming(CoreMessage::DisconnectSignal)).unwrap() {
        Action::Deliver(v) => assert_eq!(v, vec![CoreMessage::DisconnectSignal]),
        _ => panic!("the disconnect signal must reach the workers"),
    }
    assert!(c.draining());
    assert!(!c.finished());

    // after the disconnect, no further outgoing sends occur
    assert_eq!(c.step(Event::WorkerBatch(batch.clone())).unwrap(), Action::Wait);
    assert_eq!(c.step(Event::Incoming(tick(2))).unwrap(), Action::Wait);

    // the run returns success once all worker threads have joined
    assert_eq!(c.step(Event::WorkerJoined).unwrap(), Action::Wait);
    assert!(!c.finished());
    assert_eq!(c.step(Event::WorkerJoined).unwrap(), Action::Wait);
    assert!(c.finished());
}

#[test]
fn failed_worker_hand_off_aborts_with_agent_panic() {
    let mut c = Coordinator::new(3);
    match c.step(Event::DeliveryFailed) {
        Err(AgentError::AgentPanic) => {},
        _ => panic!("a dead worker must abort the whole run"),
    }
}

#[test]
fn handshake_message_after_handshake_aborts() {
    let mut c = Coordinator::new(1);
    let msg = CoreMessage::ControllableTeamInfo(ControllableTeamInfo {
        team: 0,
        controllables: vec![],
    });
    assert!(matches!(c.step(Event::Incoming(msg)), Err(AgentError::AgentPanic)));
}

#[test]
fn empty_batches_are_not_sent() {
    let mut c = Coordinator::new(1);
    assert_eq!(c.step(Event::WorkerBatch(Vec::new())).unwrap(), Action::Wait);
}

#[test]
fn end_to_end_handshake_with_two_workers() {
    // connect, then send settings with the agent identifier "test"
    let settings = InterfaceMessage::ConnectionSettings(ConnectionSettings {
        agent_id: b"test".to_vec(),
        wants_ball_predictions: true,
        wants_comms: true,
        close_between_matches: true,
    });
    let settings_frame = build_packet_payload(&settings).unwrap();
    let (payload, _) = parse_frame_at(&settings_frame, 0).unwrap();
    assert_eq!(parse_interface_payload(&payload).unwrap(), settings);

    // the server answers with the triad in scrambled order, interleaved with
    // other traffic, as one byte stream of frames
    let server_msgs = vec![
        tick(1),
        CoreMessage::FieldInfo(FieldInfo { data: vec![3, 3] }),
        CoreMessage::MatchComm(MatchComm { data: vec![1] }),
        CoreMessage::MatchConfiguration(MatchConfiguration { data: vec![2, 2] }),
        CoreMessage::ControllableTeamInfo(ControllableTeamInfo {
            team: 1,
            controllables: vec![
                ControllableInfo { index: 0, identifier: 11 },
                ControllableInfo { index: 1, identifier: 22 },
            ],
        }),
    ];
    let mut stream: Vec<u8> = Vec::new();
    for m in &server_msgs {
        stream.extend(build_core_packet_payload(m).unwrap());
    }

    // the client reads the stream frame by frame and collects the triad
    let mut received = Vec::new();
    let mut pos = 0;
    while pos < stream.len() {
        let (payload, next) = parse_frame_at(&stream, pos).unwrap();
        received.push(parse_core_payload(&payload).unwrap());
        pos = next;
    }
    assert_eq!(received, server_msgs);
    let (info, _) = collect_starting_info(&received).unwrap();
    assert_eq!(info.controllable_team_info.controllables.len(), 2);

    // two workers spawn and produce their initial output
    let mut q0 = PacketQueue::new(8);
    q0.push(InterfaceMessage::PlayerInput(PlayerInput { index: 0, data: vec![10] }));
    let mut q1 = PacketQueue::new(8);
    q1.push(InterfaceMessage::PlayerInput(PlayerInput { index: 1, data: vec![20] }));

    // exactly one combined batch: both workers' init output plus the
    // initialization-complete marker, sent as one write
    let mut init = InitCollector::new(2);
    assert!(!init.add_batch(q0.empty()));
    assert!(init.add_batch(q1.empty()));
    let combined = init.finish();
    let one_write = build_packets_payload(&combined).unwrap();

    // the single write holds exactly the three expected frames, in order
    let mut sent = Vec::new();
    let mut pos = 0;
    while pos < one_write.len() {
        let (payload, next) = parse_frame_at(&one_write, pos).unwrap();
        sent.push(parse_interface_payload(&payload).unwrap());
        pos = next;
    }
    assert_eq!(
        sent,
        vec![
            InterfaceMessage::PlayerInput(PlayerInput { index: 0, data: vec![10] }),
            InterfaceMessage::PlayerInput(PlayerInput { index: 1, data: vec![20] }),
            InterfaceMessage::InitComplete,
        ]
    );
}
