//! The render-group builder, the desired-state builder extensions, the packet
//! queue, and the configuration resolution.
use rlbot::render::Color;
use rlbot::render::Line3D;
use rlbot::render::PolyLine3D;
use rlbot::render::RenderAnchor;
use rlbot::render::RenderMessage;
use rlbot::render::Renderer;
use rlbot::render::Vector3;
use rlbot::state_builder::DesiredBallStateExt;
use rlbot::state_builder::DesiredGameState;
use rlbot::state_builder::DesiredGameStateExt;
use rlbot::state_builder::DesiredBallState;
use rlbot::state_builder::DesiredMatchInfo;
use rlbot::state_builder::DesiredPhysics;
use rlbot::state_builder::Vector3Partial;
use rlbot::messages::InterfaceMessage;
use rlbot::messages::PlayerInput;
use rlbot::util::AgentEnvironment;
use rlbot::util::PacketQueue;

#[test]
fn renderer_accumulates_messages_in_order() {
    let red = Color { r: 255, g: 0, b: 0, a: 255 };
    let a = Vector3 { x: 1, y: 2, z: 3 };
    let b = Vector3 { x: 4, y: 5, z: 6 };
    let mut draw = Renderer::new(7);
    draw.line_3d(
        RenderAnchor { world: a, relative: None },
        RenderAnchor { world: b, relative: None },
        red,
    );
    draw.polyline_3d(vec![a, b], red);
    draw.push(RenderMessage::Line3D(Line3D {
        start: RenderAnchor { world: b, relative: None },
        end: RenderAnchor { world: a, relative: None },
        color: red,
    }));
    let group = draw.build();
    assert_eq!(group.id, 7);
    assert_eq!(group.render_messages.len(), 3);
    assert_eq!(
        group.render_messages[1],
        RenderMessage::PolyLine3D(PolyLine3D { points: vec![a, b], color: red })
    );
}

#[test]
fn mod_car_grows_the_list_and_edits_in_place() {
    let mut dgs = DesiredGameState::default();
    dgs.mod_car(2, |mut c| {
        c.boost_amount = Some(100);
        c
    });
    assert_eq!(dgs.car_states.len(), 3);
    assert_eq!(dgs.car_states[0].boost_amount, None);
    assert_eq!(dgs.car_states[1].boost_amount, None);
    assert_eq!(dgs.car_states[2].boost_amount, Some(100));

    // editing an existing car keeps the others
    dgs.mod_car(0, |mut c| {
        c.boost_amount = Some(33);
        c
    });
    assert_eq!(dgs.car_states.len(), 3);
    assert_eq!(dgs.car_states[0].boost_amount, Some(33));
    assert_eq!(dgs.car_states[2].boost_amount, Some(100));
}

#[test]
fn mod_cars_applies_each_index_in_turn() {
    let mut dgs = DesiredGameState::default();
    let indices = vec![0usize, 2, 0];
    dgs.mod_cars(&indices, |i, mut c| {
        let prior = c.boost_amount.unwrap_or(0);
        c.boost_amount = Some(prior + 1 + i as u32);
        c
    });
    assert_eq!(dgs.car_states.len(), 3);
    // index 0 was edited twice: first to 1, then on top of that to 2
    assert_eq!(dgs.car_states[0].boost_amount, Some(2));
    assert_eq!(dgs.car_states[1].boost_amount, None);
    assert_eq!(dgs.car_states[2].boost_amount, Some(3));
}

#[test]
fn mod_ball_and_ball_physics() {
    let mut dgs = DesiredGameState::default();
    dgs.mod_ball(0, |mut b| {
        b.mod_physics(|mut p| {
            p.location = Some(Vector3Partial { x: Some(1), y: None, z: None });
            p
        });
        b
    });
    assert_eq!(dgs.ball_states.len(), 1);
    assert_eq!(
        dgs.ball_states[0].physics.location,
        Some(Vector3Partial { x: Some(1), y: None, z: None })
    );
    assert_eq!(dgs.ball_states[0].physics.velocity, None);
}

#[test]
fn mod_balls_grows_to_the_largest_index() {
    let mut dgs = DesiredGameState::default();
    let indices = vec![1usize];
    dgs.mod_balls(&indices, |_, b: DesiredBallState| b);
    assert_eq!(dgs.ball_states.len(), 2);
}

#[test]
fn mod_match_info_starts_from_empty_settings() {
    let mut dgs = DesiredGameState::default();
    assert_eq!(dgs.match_info, None);
    dgs.mod_match_info(|mut mi| {
        mi.game_speed = Some(42);
        mi
    });
    assert_eq!(
        dgs.match_info,
        Some(DesiredMatchInfo { world_gravity_z: None, game_speed: Some(42) })
    );
}

#[test]
fn physics_defaults_to_nothing_set() {
    let p = DesiredPhysics { location: None, rotation: None, velocity: None, angular_velocity: None };
    let b = DesiredBallState { physics: p };
    assert_eq!(b.physics.location, None);
}

#[test]
fn packet_queue_drains_in_one_piece() {
    let mut q = PacketQueue::new(4);
    assert!(q.is_empty());
    q.push(InterfaceMessage::PingResponse);
    q.push(InterfaceMessage::PlayerInput(PlayerInput { index: 1, data: vec![] }));
    assert!(!q.is_empty());
    let drained = q.empty();
    assert_eq!(
        drained,
        vec![
            InterfaceMessage::PingResponse,
            InterfaceMessage::PlayerInput(PlayerInput { index: 1, data: vec![] }),
        ]
    );
    assert!(q.is_empty());
    assert_eq!(q.empty(), Vec::new());
}

#[test]
fn packet_queue_default_is_empty() {
    let mut q = PacketQueue::default();
    assert!(q.is_empty());
    assert_eq!(q.empty(), Vec::new());
}

#[test]
fn environment_falls_back_to_the_default_address() {
    let env = AgentEnvironment::resolve(None, None, None, None);
    assert_eq!(env.server_addr, "127.0.0.1:23234");
    assert_eq!(env.agent_id, None);
}

#[test]
fn explicit_address_wins_over_host_and_port() {
    let env = AgentEnvironment::resolve(
        Some("10.0.0.1:5000".to_string()),
        Some("ignored".to_string()),
        Some("1".to_string()),
        Some("me".to_string()),
    );
    assert_eq!(env.server_addr, "10.0.0.1:5000");
    assert_eq!(env.agent_id, Some("me".to_string()));
}

#[test]
fn host_and_port_are_joined_when_no_address_is_given() {
    let env = AgentEnvironment::resolve(
        None,
        Some("192.168.1.5".to_string()),
        Some("4000".to_string()),
        Some("".to_string()),
    );
    assert_eq!(env.server_addr, "192.168.1.5:4000");
    // an empty agent identifier counts as absent
    assert_eq!(env.agent_id, None);
}
