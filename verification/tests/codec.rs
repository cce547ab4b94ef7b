//! The message codec: framing round trips for every message kind of both
//! taxonomies, rejection across taxonomies, and encode-side size limits.
use rlbot::build_core_packet_payload;
use rlbot::build_packet_payload;
use rlbot::codec::parse_core_payload;
use rlbot::codec::parse_interface_payload;
use rlbot::messages::BallPrediction;
use rlbot::messages::ConnectionSettings;
use rlbot::messages::ControllableInfo;
use rlbot::messages::ControllableTeamInfo;
use rlbot::messages::CoreMessage;
use rlbot::messages::FieldInfo;
use rlbot::messages::GamePacket;
use rlbot::messages::InterfaceMessage;
use rlbot::messages::MatchComm;
use rlbot::messages::MatchConfiguration;
use rlbot::messages::PlayerInput;
use rlbot::messages::RenderingStatus;
use rlbot::render::Color;
use rlbot::render::Line3D;
use rlbot::render::PolyLine3D;
use rlbot::render::RenderAnchor;
use rlbot::render::RenderGroup;
use rlbot::render::RenderMessage;
use rlbot::render::Vector3;
use rlbot::state_builder::DesiredBallState;
use rlbot::state_builder::DesiredCarState;
use rlbot::state_builder::DesiredGameState;
use rlbot::state_builder::DesiredMatchInfo;
use rlbot::state_builder::DesiredPhysics;
use rlbot::state_builder::RotatorPartial;
use rlbot::state_builder::Vector3Partial;
use rlbot::wire::parse_frame_at;
use rlbot::PacketBuildError;

fn core_roundtrip(m: CoreMessage) -> CoreMessage {
    let frame = build_core_packet_payload(&m).unwrap();
    let (payload, consumed) = parse_frame_at(&frame, 0).unwrap();
    assert_eq!(consumed, frame.len());
    parse_core_payload(&payload).unwrap()
}

fn interface_roundtrip(m: InterfaceMessage) -> InterfaceMessage {
    let frame = build_packet_payload(&m).unwrap();
    let (payload, consumed) = parse_frame_at(&frame, 0).unwrap();
    assert_eq!(consumed, frame.len());
    parse_interface_payload(&payload).unwrap()
}

#[test]
fn core_messages_roundtrip() {
    let cti = CoreMessage::ControllableTeamInfo(ControllableTeamInfo {
        team: 1,
        controllables: vec![
            ControllableInfo { index: 0, identifier: 1234567 },
            ControllableInfo { index: 5, identifier: 7654321 },
        ],
    });
    assert_eq!(core_roundtrip(cti.clone()), cti);

    let mc = CoreMessage::MatchConfiguration(MatchConfiguration { data: vec![9, 8, 7] });
    assert_eq!(core_roundtrip(mc.clone()), mc);

    let fi = CoreMessage::FieldInfo(FieldInfo { data: vec![] });
    assert_eq!(core_roundtrip(fi.clone()), fi);

    let gp = CoreMessage::GamePacket(GamePacket { data: vec![1; 100] });
    assert_eq!(core_roundtrip(gp.clone()), gp);

    let bp = CoreMessage::BallPrediction(BallPrediction { data: vec![2, 4, 6] });
    assert_eq!(core_roundtrip(bp.clone()), bp);

    let comm = CoreMessage::MatchComm(MatchComm { data: vec![42] });
    assert_eq!(core_roundtrip(comm.clone()), comm);

    let rs = CoreMessage::RenderingStatus(RenderingStatus { data: vec![1, 0] });
    assert_eq!(core_roundtrip(rs.clone()), rs);

    assert_eq!(core_roundtrip(CoreMessage::PingRequest), CoreMessage::PingRequest);
    assert_eq!(core_roundtrip(CoreMessage::PingResponse), CoreMessage::PingResponse);
    assert_eq!(core_roundtrip(CoreMessage::DisconnectSignal), CoreMessage::DisconnectSignal);
}

#[test]
fn interface_messages_roundtrip() {
    let cs = InterfaceMessage::ConnectionSettings(ConnectionSettings {
        agent_id: b"test/agent".to_vec(),
        wants_ball_predictions: true,
        wants_comms: false,
        close_between_matches: true,
    });
    assert_eq!(interface_roundtrip(cs.clone()), cs);

    let pi = InterfaceMessage::PlayerInput(PlayerInput { index: 3, data: vec![0, 1, 2, 3] });
    assert_eq!(interface_roundtrip(pi.clone()), pi);

    let comm = InterfaceMessage::MatchComm(MatchComm { data: vec![5; 10] });
    assert_eq!(interface_roundtrip(comm.clone()), comm);

    assert_eq!(interface_roundtrip(InterfaceMessage::PingResponse), InterfaceMessage::PingResponse);
    assert_eq!(interface_roundtrip(InterfaceMessage::InitComplete), InterfaceMessage::InitComplete);
}

#[test]
fn render_group_roundtrips() {
    let red = Color { r: 255, g: 0, b: 0, a: 255 };
    let p1 = Vector3 { x: 1, y: 2, z: 3 };
    let p2 = Vector3 { x: 4, y: 5, z: 6 };
    let group = InterfaceMessage::RenderGroup(RenderGroup {
        render_messages: vec![
            RenderMessage::Line3D(Line3D {
                start: RenderAnchor { world: p1, relative: None },
                end: RenderAnchor { world: p2, relative: None },
                color: red,
            }),
            RenderMessage::PolyLine3D(PolyLine3D { points: vec![p1, p2, p1], color: red }),
        ],
        id: -17,
    });
    assert_eq!(interface_roundtrip(group.clone()), group);
}

#[test]
fn desired_game_state_roundtrips() {
    let dgs = InterfaceMessage::DesiredGameState(DesiredGameState {
        ball_states: vec![DesiredBallState {
            physics: DesiredPhysics {
                location: Some(Vector3Partial { x: Some(10), y: None, z: Some(30) }),
                rotation: Some(RotatorPartial { pitch: None, yaw: Some(7), roll: None }),
                velocity: None,
                angular_velocity: None,
            },
        }],
        car_states: vec![
            DesiredCarState { physics: None, boost_amount: Some(100) },
            DesiredCarState { physics: None, boost_amount: None },
        ],
        match_info: Some(DesiredMatchInfo { world_gravity_z: Some(650), game_speed: None }),
    });
    assert_eq!(interface_roundtrip(dgs.clone()), dgs);
}

#[test]
fn taxonomies_do_not_cross_decode() {
    // a client-to-server payload never reads as a server message
    let pi = InterfaceMessage::PlayerInput(PlayerInput { index: 0, data: vec![] });
    let frame = build_packet_payload(&pi).unwrap();
    let (payload, _) = parse_frame_at(&frame, 0).unwrap();
    assert!(parse_core_payload(&payload).is_err());

    // and a server payload never reads as a client message
    let gp = CoreMessage::GamePacket(GamePacket { data: vec![1] });
    let frame = build_core_packet_payload(&gp).unwrap();
    let (payload, _) = parse_frame_at(&frame, 0).unwrap();
    assert!(parse_interface_payload(&payload).is_err());
}

#[test]
fn malformed_payloads_are_rejected() {
    // unknown tag
    assert!(parse_core_payload(&vec![99u8]).is_err());
    // empty payload
    assert!(parse_core_payload(&vec![]).is_err());
    // trailing garbage after a complete message
    let gp = CoreMessage::GamePacket(GamePacket { data: vec![1] });
    let frame = build_core_packet_payload(&gp).unwrap();
    let (mut payload, _) = parse_frame_at(&frame, 0).unwrap();
    payload.push(0);
    assert!(parse_core_payload(&payload).is_err());
    // truncated body
    assert!(parse_core_payload(&vec![4u8, 0, 5, 1, 2]).is_err());
}

#[test]
fn whole_payload_at_the_frame_limit() {
    // tag (1) + count (2) + data: a 65532-byte snapshot fills the frame exactly
    let gp = CoreMessage::GamePacket(GamePacket { data: vec![0; 65532] });
    let frame = build_core_packet_payload(&gp).unwrap();
    assert_eq!(frame.len(), 2 + 65535);

    // one byte more no longer fits the two-byte length prefix
    let gp = CoreMessage::GamePacket(GamePacket { data: vec![0; 65533] });
    match build_core_packet_payload(&gp) {
        Err(PacketBuildError::PayloadTooLarge(n)) => assert_eq!(n, 65536),
        _ => panic!("an oversized frame must be rejected"),
    }
}

#[test]
fn oversized_counted_field_is_rejected_at_encode() {
    let comm = InterfaceMessage::MatchComm(MatchComm { data: vec![0; 70000] });
    assert!(matches!(
        build_packet_payload(&comm),
        Err(PacketBuildError::PayloadTooLarge(70000))
    ));
}
