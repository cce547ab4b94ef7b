//! Agent logic and the per-worker message handling. An agent is user code: it
//! receives one incoming message at a time and communicates output exclusively
//! by appending to its worker's [`PacketQueue`] — it never touches the socket.
//! The worker step functions here route one inbox message to the right
//! callback and answer whether the worker should exit.
use vstd::prelude::*;

use std::sync::Arc;

use crate::dispatch::absorb_spec;
use crate::dispatch::flush_spec;
use crate::dispatch::TickCoalescer;
use crate::messages::is_handshake_kind;
use crate::messages::BallPrediction;
use crate::messages::ControllableInfo;
use crate::messages::ControllableTeamInfo;
use crate::messages::CoreMessage;
use crate::messages::FieldInfo;
use crate::messages::GamePacket;
use crate::messages::InterfaceMessage;
use crate::messages::InterfaceMessageV;
use crate::messages::MatchComm;
use crate::messages::MatchConfiguration;
use crate::messages::RenderingStatus;
use crate::util::PacketQueue;
use crate::PacketBuildError;
use crate::PacketParseError;

verus! {

/// A run-ending failure, as `run` reports it to the caller.
#[derive(Debug)]
pub enum RLBotError {
    /// Transport-level failure; the text describes the I/O error.
    Connection(String),
    /// A received frame's payload did not decode as a server message.
    PacketParseError(PacketParseError),
    /// An outgoing message could not be encoded within the frame limit.
    PacketBuildError(PacketBuildError),
    /// The configured address could not be parsed.
    InvalidAddrError(String),
}

/// Why an agent run ended abnormally.
#[derive(Debug)]
pub enum AgentError {
    /// A worker terminated abnormally, or a message hand-off to or from a
    /// worker failed; the run aborts rather than continuing with a partially
    /// functioning worker set.
    AgentPanic,
    /// The connection failed; the payload says how.
    PacketParseError(RLBotError),
}

/// One agent controlling one unit, running against a shared connection.
pub trait BotAgent: Sized {
    /// Called once, before any ticks; may already enqueue output.
    fn new(
        team: u32,
        controllable_info: ControllableInfo,
        match_configuration: Arc<MatchConfiguration>,
        field_info: Arc<FieldInfo>,
        packet_queue: &mut PacketQueue,
    ) -> Self;

    /// Called once per received per-tick state message.
    fn tick(&mut self, game_packet: &GamePacket, packet_queue: &mut PacketQueue);

    /// Called when an inter-agent communication is delivered.
    fn on_match_comm(&mut self, match_comm: &MatchComm, packet_queue: &mut PacketQueue) {
    }

    /// Called when a ball prediction is delivered.
    fn on_ball_prediction(
        &mut self,
        ball_prediction: &BallPrediction,
        packet_queue: &mut PacketQueue,
    ) {
    }

    /// Called when a render acknowledgement is delivered.
    fn on_rendering_status(
        &mut self,
        rendering_status: &RenderingStatus,
        packet_queue: &mut PacketQueue,
    ) {
    }

    /// Called when the server answers a keepalive.
    fn on_ping_response(&mut self, packet_queue: &mut PacketQueue) {
    }
}

/// One agent controlling every assigned unit at once over one connection.
pub trait HivemindAgent: Sized {
    /// Called once, before any ticks; may already enqueue output.
    fn new(
        controllable_team_info: ControllableTeamInfo,
        match_configuration: MatchConfiguration,
        field_info: FieldInfo,
        packet_queue: &mut PacketQueue,
    ) -> Self;

    /// Called once per received per-tick state message.
    fn tick(&mut self, game_packet: GamePacket, packet_queue: &mut PacketQueue);

    /// Called when an inter-agent communication is delivered.
    fn on_match_comm(&mut self, match_comm: MatchComm, packet_queue: &mut PacketQueue) {
    }

    /// Called with the prediction belonging to the tick that follows.
    fn on_ball_prediction(&mut self, ball_prediction: BallPrediction) {
    }
}

/// A stateless script with no controllable units.
pub trait ScriptAgent: Sized {
    /// Called once, before any ticks; may already enqueue output.
    fn new(
        agent_id: String,
        match_configuration: MatchConfiguration,
        field_info: FieldInfo,
        packet_queue: &mut PacketQueue,
    ) -> Self;

    /// Called once per received per-tick state message.
    fn tick(&mut self, game_packet: GamePacket, packet_queue: &mut PacketQueue);

    /// Called when an inter-agent communication is delivered.
    fn on_match_comm(&mut self, match_comm: MatchComm, packet_queue: &mut PacketQueue) {
    }

    /// Called when a ball prediction is delivered.
    fn on_ball_prediction(
        &mut self,
        ball_prediction: BallPrediction,
        packet_queue: &mut PacketQueue,
    ) {
    }

    /// Called when a render acknowledgement is delivered.
    fn on_rendering_status(
        &mut self,
        rendering_status: RenderingStatus,
        packet_queue: &mut PacketQueue,
    ) {
    }
}

/// Routes one delivered inbox message to the right callback of a bot agent.
/// Returns whether the worker must exit: exactly on the disconnect signal,
/// which changes no state and enqueues nothing. A keepalive request is
/// answered directly into the queue, without the agent.
pub fn bot_handle_message<T: BotAgent>(
    agent: &mut T,
    msg: &CoreMessage,
    packet_queue: &mut PacketQueue,
) -> (stop: bool)
    requires
        !is_handshake_kind(msg@),
    ensures
        stop == (msg@ is DisconnectSignal),
        msg@ is DisconnectSignal ==> final(packet_queue)@ == old(packet_queue)@,
        msg@ is PingRequest ==> final(packet_queue)@ == old(packet_queue)@.push(
            InterfaceMessageV::PingResponse,
        ),
{
    match msg {
        CoreMessage::DisconnectSignal => true,
        CoreMessage::GamePacket(x) => {
            agent.tick(x, packet_queue);
            false
        },
        CoreMessage::MatchComm(x) => {
            agent.on_match_comm(x, packet_queue);
            false
        },
        CoreMessage::BallPrediction(x) => {
            agent.on_ball_prediction(x, packet_queue);
            false
        },
        CoreMessage::RenderingStatus(x) => {
            agent.on_rendering_status(x, packet_queue);
            false
        },
        CoreMessage::PingResponse => {
            agent.on_ping_response(packet_queue);
            false
        },
        CoreMessage::PingRequest => {
            packet_queue.push(InterfaceMessage::PingResponse);
            false
        },
        _ => {
            proof {
                assert(false);
            }
            unreached()
        },
    }
}

/// Routes one received message to the right callback of a script agent, as
/// [`bot_handle_message`] does for a bot. A script receives keepalive traffic
/// but answers nothing itself.
pub fn script_handle_message<T: ScriptAgent>(
    agent: &mut T,
    msg: CoreMessage,
    packet_queue: &mut PacketQueue,
) -> (stop: bool)
    requires
        !is_handshake_kind(msg@),
    ensures
        stop == (msg@ is DisconnectSignal),
        msg@ is DisconnectSignal ==> final(packet_queue)@ == old(packet_queue)@,
{
    match msg {
        CoreMessage::DisconnectSignal => true,
        CoreMessage::GamePacket(x) => {
            agent.tick(x, packet_queue);
            false
        },
        CoreMessage::MatchComm(x) => {
            agent.on_match_comm(x, packet_queue);
            false
        },
        CoreMessage::BallPrediction(x) => {
            agent.on_ball_prediction(x, packet_queue);
            false
        },
        CoreMessage::RenderingStatus(x) => {
            agent.on_rendering_status(x, packet_queue);
            false
        },
        CoreMessage::PingRequest => false,
        CoreMessage::PingResponse => false,
        _ => {
            proof {
                assert(false);
            }
            unreached()
        },
    }
}

/// One step of the hivemind's drain loop: comms are handed to the agent at
/// once; predictions and ticks are held by the coalescer, last one wins.
/// Returns whether the drain saw the disconnect signal.
pub fn hivemind_absorb_message<T: HivemindAgent>(
    agent: &mut T,
    coalescer: &mut TickCoalescer,
    msg: CoreMessage,
    packet_queue: &mut PacketQueue,
) -> (stop: bool)
    requires
        msg@ is DisconnectSignal || msg@ is MatchComm || msg@ is BallPrediction || msg@
            is GamePacket,
    ensures
        stop == (msg@ is DisconnectSignal),
        final(coalescer)@ == if msg@ is DisconnectSignal {
            old(coalescer)@
        } else {
            absorb_spec(old(coalescer)@, msg@)
        },
        msg@ is DisconnectSignal ==> final(packet_queue)@ == old(packet_queue)@,
{
    match msg {
        CoreMessage::DisconnectSignal => true,
        CoreMessage::MatchComm(x) => {
            agent.on_match_comm(x, packet_queue);
            false
        },
        CoreMessage::BallPrediction(p) => {
            let _absorbed = coalescer.absorb(CoreMessage::BallPrediction(p));
            false
        },
        CoreMessage::GamePacket(t) => {
            let _absorbed = coalescer.absorb(CoreMessage::GamePacket(t));
            false
        },
        _ => {
            proof {
                assert(false);
            }
            unreached()
        },
    }
}

/// The end of one hivemind drain: if a tick is held, the prediction that
/// belongs to it, if any, is handed to the agent immediately before the tick.
/// Returns whether a tick ran, so the caller knows to send the cycle's batch.
#[verifier::loop_isolation(false)]
pub fn hivemind_flush_tick<T: HivemindAgent>(
    agent: &mut T,
    coalescer: &mut TickCoalescer,
    packet_queue: &mut PacketQueue,
) -> (ticked: bool)
    ensures
        ticked == (old(coalescer)@.held_tick is Some),
        final(coalescer)@.held_tick is None,
        !ticked ==> final(coalescer)@ == old(coalescer)@ && final(packet_queue)@ == old(
            packet_queue,
        )@,
{
    let ghost before = coalescer@;
    let delivered = coalescer.flush();
    let ghost deliveredv = flush_spec(before);
    let mut ticked = false;
    let mut rest = delivered;
    // the flush is at most a prediction and a tick; hand each to the agent
    // in order
    while rest.len() > 0
        invariant
            crate::messages::cmsgs_view(rest@) == deliveredv.skip(
                deliveredv.len() - rest@.len(),
            ),
            rest@.len() <= deliveredv.len(),
            ticked == (deliveredv.len() - rest@.len() > 0 && deliveredv[deliveredv.len()
                - rest@.len() - 1] is GamePacket),
            deliveredv.len() > 0 ==> deliveredv.last() is GamePacket,
            forall|j: int|
                0 <= j < deliveredv.len() - 1 ==> (#[trigger] deliveredv[j]) is BallPrediction,
            deliveredv.len() == 0 ==> packet_queue@ == old(packet_queue)@,
        decreases rest@.len(),
    {
        let ghost oldrest = rest@;
        let ghost off = deliveredv.len() - rest@.len();
        let m = rest.remove(0);
        proof {
            assert(crate::messages::cmsgs_view(oldrest)[0] == oldrest[0]@);
            assert(m@ == deliveredv[off]);
        }
        match m {
            CoreMessage::BallPrediction(p) => {
                agent.on_ball_prediction(p);
                ticked = false;
            },
            CoreMessage::GamePacket(t) => {
                agent.tick(t, packet_queue);
                ticked = true;
            },
            _ => {
                proof {
                    assert(false);
                }
                unreached()
            },
        }
        proof {
            assert(rest@ =~= oldrest.subrange(1, oldrest.len() as int));
            assert forall|j: int| 0 <= j < rest@.len() implies crate::messages::cmsgs_view(
                rest@,
            )[j] == deliveredv[off + 1 + j] by {
                assert(rest@[j] == oldrest[j + 1]);
                assert(crate::messages::cmsgs_view(oldrest)[j + 1] == oldrest[j + 1]@);
                assert(crate::messages::cmsgs_view(oldrest)[j + 1] == deliveredv.skip(off)[j + 1]);
            }
            assert(crate::messages::cmsgs_view(rest@) =~= deliveredv.skip(off + 1));
        }
    }
    ticked
}

} // verus!