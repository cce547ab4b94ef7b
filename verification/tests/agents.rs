//! The per-worker message handlers: callback routing, the keepalive answer,
//! the disconnect exit, and the hivemind's prediction-before-tick pairing.
use std::sync::Arc;

use rlbot::agents::bot_handle_message;
use rlbot::agents::hivemind_absorb_message;
use rlbot::agents::hivemind_flush_tick;
use rlbot::agents::script_handle_message;
use rlbot::agents::BotAgent;
use rlbot::agents::HivemindAgent;
use rlbot::agents::ScriptAgent;
use rlbot::dispatch::TickCoalescer;
use rlbot::messages::BallPrediction;
use rlbot::messages::ControllableInfo;
use rlbot::messages::ControllableTeamInfo;
use rlbot::messages::CoreMessage;
use rlbot::messages::FieldInfo;
use rlbot::messages::GamePacket;
use rlbot::messages::InterfaceMessage;
use rlbot::messages::MatchComm;
use rlbot::messages::PlayerInput;
use rlbot::messages::MatchConfiguration;
use rlbot::util::PacketQueue;

/// Records which callbacks ran, in order; emits one control input per tick.
struct Recorder {
    calls: Vec<String>,
}

impl BotAgent for Recorder {
    fn new(
        _team: u32,
        controllable_info: ControllableInfo,
        _match_configuration: Arc<MatchConfiguration>,
        _field_info: Arc<FieldInfo>,
        packet_queue: &mut PacketQueue,
    ) -> Self {
        packet_queue.push(InterfaceMessage::PlayerInput(PlayerInput {
            index: controllable_info.index,
            data: vec![],
        }));
        Recorder { calls: Vec::new() }
    }

    fn tick(&mut self, game_packet: &GamePacket, packet_queue: &mut PacketQueue) {
        self.calls.push(format!("tick:{}", game_packet.data[0]));
        packet_queue.push(InterfaceMessage::PlayerInput(PlayerInput {
            index: 0,
            data: game_packet.data.clone(),
        }));
    }

    fn on_match_comm(&mut self, match_comm: &MatchComm, _packet_queue: &mut PacketQueue) {
        self.calls.push(format!("comm:{}", match_comm.data[0]));
    }

    fn on_ball_prediction(
        &mut self,
        ball_prediction: &BallPrediction,
        _packet_queue: &mut PacketQueue,
    ) {
        self.calls.push(format!("pred:{}", ball_prediction.data[0]));
    }
}

#[test]
fn bot_worker_routes_messages_to_the_right_callbacks() {
    let mut q = PacketQueue::new(8);
    let mut bot = Recorder::new(
        0,
        ControllableInfo { index: 4, identifier: 44 },
        Arc::new(MatchConfiguration { data: vec![] }),
        Arc::new(FieldInfo { data: vec![] }),
        &mut q,
    );
    // the init output went into the queue
    assert_eq!(
        q.empty(),
        vec![InterfaceMessage::PlayerInput(PlayerInput { index: 4, data: vec![] })]
    );

    let msgs = vec![
        CoreMessage::BallPrediction(BallPrediction { data: vec![9] }),
        CoreMessage::GamePacket(GamePacket { data: vec![1] }),
        CoreMessage::MatchComm(MatchComm { data: vec![5] }),
    ];
    for m in &msgs {
        assert!(!bot_handle_message(&mut bot, m, &mut q));
    }
    assert_eq!(bot.calls, vec!["pred:9".to_string(), "tick:1".to_string(), "comm:5".to_string()]);
    // the tick appended its control input
    assert_eq!(
        q.empty(),
        vec![InterfaceMessage::PlayerInput(PlayerInput { index: 0, data: vec![1] })]
    );
}

#[test]
fn bot_worker_answers_keepalive_and_exits_on_disconnect() {
    let mut q = PacketQueue::new(8);
    let mut bot = Recorder::new(
        0,
        ControllableInfo { index: 0, identifier: 0 },
        Arc::new(MatchConfiguration { data: vec![] }),
        Arc::new(FieldInfo { data: vec![] }),
        &mut q,
    );
    q.empty();
    // a keepalive request is answered directly into the queue
    assert!(!bot_handle_message(&mut bot, &CoreMessage::PingRequest, &mut q));
    assert_eq!(q.empty(), vec![InterfaceMessage::PingResponse]);
    // the disconnect signal stops the worker and enqueues nothing
    assert!(bot_handle_message(&mut bot, &CoreMessage::DisconnectSignal, &mut q));
    assert!(q.is_empty());
    assert!(bot.calls.is_empty());
}

/// A script that counts ticks.
struct CountingScript {
    ticks: usize,
}

impl ScriptAgent for CountingScript {
    fn new(
        _agent_id: String,
        _match_configuration: MatchConfiguration,
        _field_info: FieldInfo,
        _packet_queue: &mut PacketQueue,
    ) -> Self {
        CountingScript { ticks: 0 }
    }

    fn tick(&mut self, _game_packet: GamePacket, _packet_queue: &mut PacketQueue) {
        self.ticks += 1;
    }
}

#[test]
fn script_worker_ticks_and_exits_on_disconnect() {
    let mut q = PacketQueue::new(8);
    let mut script = CountingScript::new(
        "test".to_string(),
        MatchConfiguration { data: vec![] },
        FieldInfo { data: vec![] },
        &mut q,
    );
    assert!(!script_handle_message(
        &mut script,
        CoreMessage::GamePacket(GamePacket { data: vec![1] }),
        &mut q
    ));
    assert!(!script_handle_message(&mut script, CoreMessage::PingRequest, &mut q));
    assert!(script_handle_message(&mut script, CoreMessage::DisconnectSignal, &mut q));
    assert_eq!(script.ticks, 1);
}

/// A hivemind that records the order of predictions and ticks.
struct OrderHive {
    calls: Vec<String>,
}

impl HivemindAgent for OrderHive {
    fn new(
        _controllable_team_info: ControllableTeamInfo,
        _match_configuration: MatchConfiguration,
        _field_info: FieldInfo,
        _packet_queue: &mut PacketQueue,
    ) -> Self {
        OrderHive { calls: Vec::new() }
    }

    fn tick(&mut self, game_packet: GamePacket, _packet_queue: &mut PacketQueue) {
        self.calls.push(format!("tick:{}", game_packet.data[0]));
    }

    fn on_match_comm(&mut self, match_comm: MatchComm, _packet_queue: &mut PacketQueue) {
        self.calls.push(format!("comm:{}", match_comm.data[0]));
    }

    fn on_ball_prediction(&mut self, ball_prediction: BallPrediction) {
        self.calls.push(format!("pred:{}", ball_prediction.data[0]));
    }
}

#[test]
fn hivemind_sees_the_superseding_prediction_right_before_the_tick() {
    let mut q = PacketQueue::new(8);
    let mut hive = OrderHive::new(
        ControllableTeamInfo { team: 0, controllables: vec![] },
        MatchConfiguration { data: vec![] },
        FieldInfo { data: vec![] },
        &mut q,
    );
    let mut coalescer = TickCoalescer::new();
    let drained = vec![
        CoreMessage::MatchComm(MatchComm { data: vec![1] }),
        CoreMessage::BallPrediction(BallPrediction { data: vec![2] }),
        CoreMessage::BallPrediction(BallPrediction { data: vec![3] }),
        CoreMessage::GamePacket(GamePacket { data: vec![4] }),
    ];
    for m in drained {
        assert!(!hivemind_absorb_message(&mut hive, &mut coalescer, m, &mut q));
    }
    assert!(hivemind_flush_tick(&mut hive, &mut coalescer, &mut q));
    assert_eq!(
        hive.calls,
        vec!["comm:1".to_string(), "pred:3".to_string(), "tick:4".to_string()]
    );
    // nothing held: a second flush runs no tick
    assert!(!hivemind_flush_tick(&mut hive, &mut coalescer, &mut q));
}

#[test]
fn hivemind_stops_on_disconnect() {
    let mut q = PacketQueue::new(8);
    let mut hive = OrderHive::new(
        ControllableTeamInfo { team: 0, controllables: vec![] },
        MatchConfiguration { data: vec![] },
        FieldInfo { data: vec![] },
        &mut q,
    );
    let mut coalescer = TickCoalescer::new();
    assert!(hivemind_absorb_message(
        &mut hive,
        &mut coalescer,
        CoreMessage::DisconnectSignal,
        &mut q
    ));
    assert!(hive.calls.is_empty());
}
