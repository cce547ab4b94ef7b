//! The two message taxonomies of the protocol. Server-to-client messages form
//! [`CoreMessage`]; client-to-server messages form [`InterfaceMessage`]. A
//! message belongs to exactly one taxonomy, and the codec refuses to read one
//! taxonomy's bytes as the other.
//!
//! The runtime routes messages by kind and reads only the controllable
//! assignments and the connection settings; every other payload is carried as
//! opaque bytes between the wire and the agent callbacks.
use vstd::prelude::*;

use crate::render::RenderGroup;
use crate::render::RenderGroupV;
use crate::state_builder::DesiredGameState;
use crate::state_builder::DesiredGameStateV;

verus! {

/// Identifies one controlled unit: its position in the current tick's state
/// array, and a stable identifier that survives state-array reshuffles.
#[derive(Clone, Copy, PartialEq, Eq, Structural, Debug)]
pub struct ControllableInfo {
    pub index: u32,
    pub identifier: u32,
}

/// The handshake assignment: which team this connection controls, and the
/// ordered collection of controllable units, one per worker.
#[derive(PartialEq, Eq, Debug)]
pub struct ControllableTeamInfo {
    pub team: u32,
    pub controllables: Vec<ControllableInfo>,
}

/// Mathematical value of a [`ControllableTeamInfo`].
#[verifier::ext_equal]
pub struct ControllableTeamInfoV {
    pub team: u32,
    pub controllables: Seq<ControllableInfo>,
}

impl View for ControllableTeamInfo {
    type V = ControllableTeamInfoV;

    open spec fn view(&self) -> ControllableTeamInfoV {
        ControllableTeamInfoV { team: self.team, controllables: self.controllables@ }
    }
}

impl Clone for ControllableTeamInfo {
    fn clone(&self) -> (r: Self)
        ensures
            r@ == self@,
    {
        let r = ControllableTeamInfo { team: self.team, controllables: self.controllables.clone() };
        proof {
            assert(r.controllables@ =~= self.controllables@);
        }
        r
    }
}

/// The handshake match configuration. The runtime shares it read-only with
/// every worker and never reads inside it.
#[derive(PartialEq, Eq, Debug)]
pub struct MatchConfiguration {
    pub data: Vec<u8>,
}

/// The handshake field geometry. Shared read-only like the match configuration.
#[derive(PartialEq, Eq, Debug)]
pub struct FieldInfo {
    pub data: Vec<u8>,
}

/// One tick's simulation state snapshot.
#[derive(PartialEq, Eq, Debug)]
pub struct GamePacket {
    pub data: Vec<u8>,
}

/// A ball-trajectory prediction for one simulation frame.
#[derive(PartialEq, Eq, Debug)]
pub struct BallPrediction {
    pub data: Vec<u8>,
}

/// An inter-agent communication relay; each worker decides relevance itself.
#[derive(PartialEq, Eq, Debug)]
pub struct MatchComm {
    pub data: Vec<u8>,
}

/// An acknowledgement of earlier render commands.
#[derive(PartialEq, Eq, Debug)]
pub struct RenderingStatus {
    pub data: Vec<u8>,
}

/// Per-tick control input for one controlled unit.
#[derive(PartialEq, Eq, Debug)]
pub struct PlayerInput {
    pub index: u32,
    pub data: Vec<u8>,
}

/// The connection-settings handshake message the client sends first.
/// The agent identifier is carried as its UTF-8 bytes.
#[derive(PartialEq, Eq, Debug)]
pub struct ConnectionSettings {
    pub agent_id: Vec<u8>,
    pub wants_ball_predictions: bool,
    pub wants_comms: bool,
    pub close_between_matches: bool,
}

impl View for MatchConfiguration {
    type V = Seq<u8>;

    open spec fn view(&self) -> Seq<u8> {
        self.data@
    }
}

impl Clone for MatchConfiguration {
    fn clone(&self) -> (r: Self)
        ensures
            r@ == self@,
    {
        let r = MatchConfiguration { data: self.data.clone() };
        proof {
            assert(r.data@ =~= self.data@);
        }
        r
    }
}

impl View for FieldInfo {
    type V = Seq<u8>;

    open spec fn view(&self) -> Seq<u8> {
        self.data@
    }
}

impl Clone for FieldInfo {
    fn clone(&self) -> (r: Self)
        ensures
            r@ == self@,
    {
        let r = FieldInfo { data: self.data.clone() };
        proof {
            assert(r.data@ =~= self.data@);
        }
        r
    }
}

impl View for GamePacket {
    type V = Seq<u8>;

    open spec fn view(&self) -> Seq<u8> {
        self.data@
    }
}

impl Clone for GamePacket {
    fn clone(&self) -> (r: Self)
        ensures
            r@ == self@,
    {
        let r = GamePacket { data: self.data.clone() };
        proof {
            assert(r.data@ =~= self.data@);
        }
        r
    }
}

impl View for BallPrediction {
    type V = Seq<u8>;

    open spec fn view(&self) -> Seq<u8> {
        self.data@
    }
}

impl Clone for BallPrediction {
    fn clone(&self) -> (r: Self)
        ensures
            r@ == self@,
    {
        let r = BallPrediction { data: self.data.clone() };
        proof {
            assert(r.data@ =~= self.data@);
        }
        r
    }
}

impl View for MatchComm {
    type V = Seq<u8>;

    open spec fn view(&self) -> Seq<u8> {
        self.data@
    }
}

impl Clone for MatchComm {
    fn clone(&self) -> (r: Self)
        ensures
            r@ == self@,
    {
        let r = MatchComm { data: self.data.clone() };
        proof {
            assert(r.data@ =~= self.data@);
        }
        r
    }
}

impl View for RenderingStatus {
    type V = Seq<u8>;

    open spec fn view(&self) -> Seq<u8> {
        self.data@
    }
}

impl Clone for RenderingStatus {
    fn clone(&self) -> (r: Self)
        ensures
            r@ == self@,
    {
        let r = RenderingStatus { data: self.data.clone() };
        proof {
            assert(r.data@ =~= self.data@);
        }
        r
    }
}

/// A server-to-client message.
#[derive(PartialEq, Eq, Debug)]
pub enum CoreMessage {
    ControllableTeamInfo(ControllableTeamInfo),
    MatchConfiguration(MatchConfiguration),
    FieldInfo(FieldInfo),
    GamePacket(GamePacket),
    BallPrediction(BallPrediction),
    MatchComm(MatchComm),
    RenderingStatus(RenderingStatus),
    PingRequest,
    PingResponse,
    DisconnectSignal,
}

/// Mathematical value of a [`CoreMessage`].
#[verifier::ext_equal]
pub enum CoreMessageV {
    ControllableTeamInfo(ControllableTeamInfoV),
    MatchConfiguration(Seq<u8>),
    FieldInfo(Seq<u8>),
    GamePacket(Seq<u8>),
    BallPrediction(Seq<u8>),
    MatchComm(Seq<u8>),
    RenderingStatus(Seq<u8>),
    PingRequest,
    PingResponse,
    DisconnectSignal,
}

impl View for CoreMessage {
    type V = CoreMessageV;

    open spec fn view(&self) -> CoreMessageV {
        match self {
            CoreMessage::ControllableTeamInfo(x) => CoreMessageV::ControllableTeamInfo(x@),
            CoreMessage::MatchConfiguration(x) => CoreMessageV::MatchConfiguration(x@),
            CoreMessage::FieldInfo(x) => CoreMessageV::FieldInfo(x@),
            CoreMessage::GamePacket(x) => CoreMessageV::GamePacket(x@),
            CoreMessage::BallPrediction(x) => CoreMessageV::BallPrediction(x@),
            CoreMessage::MatchComm(x) => CoreMessageV::MatchComm(x@),
            CoreMessage::RenderingStatus(x) => CoreMessageV::RenderingStatus(x@),
            CoreMessage::PingRequest => CoreMessageV::PingRequest,
            CoreMessage::PingResponse => CoreMessageV::PingResponse,
            CoreMessage::DisconnectSignal => CoreMessageV::DisconnectSignal,
        }
    }
}

impl Clone for CoreMessage {
    fn clone(&self) -> (r: Self)
        ensures
            r@ == self@,
    {
        match self {
            CoreMessage::ControllableTeamInfo(x) => CoreMessage::ControllableTeamInfo(x.clone()),
            CoreMessage::MatchConfiguration(x) => CoreMessage::MatchConfiguration(x.clone()),
            CoreMessage::FieldInfo(x) => CoreMessage::FieldInfo(x.clone()),
            CoreMessage::GamePacket(x) => CoreMessage::GamePacket(x.clone()),
            CoreMessage::BallPrediction(x) => CoreMessage::BallPrediction(x.clone()),
            CoreMessage::MatchComm(x) => CoreMessage::MatchComm(x.clone()),
            CoreMessage::RenderingStatus(x) => CoreMessage::RenderingStatus(x.clone()),
            CoreMessage::PingRequest => CoreMessage::PingRequest,
            CoreMessage::PingResponse => CoreMessage::PingResponse,
            CoreMessage::DisconnectSignal => CoreMessage::DisconnectSignal,
        }
    }
}

/// A client-to-server message.
#[derive(PartialEq, Eq, Debug)]
pub enum InterfaceMessage {
    ConnectionSettings(ConnectionSettings),
    PlayerInput(PlayerInput),
    MatchComm(MatchComm),
    RenderGroup(RenderGroup),
    DesiredGameState(DesiredGameState),
    PingResponse,
    InitComplete,
}

/// Mathematical value of an [`InterfaceMessage`].
#[verifier::ext_equal]
pub enum InterfaceMessageV {
    ConnectionSettings {
        agent_id: Seq<u8>,
        wants_ball_predictions: bool,
        wants_comms: bool,
        close_between_matches: bool,
    },
    PlayerInput {
        index: u32,
        data: Seq<u8>,
    },
    MatchComm(Seq<u8>),
    RenderGroup(RenderGroupV),
    DesiredGameState(DesiredGameStateV),
    PingResponse,
    InitComplete,
}

impl View for InterfaceMessage {
    type V = InterfaceMessageV;

    open spec fn view(&self) -> InterfaceMessageV {
        match self {
            InterfaceMessage::ConnectionSettings(x) => InterfaceMessageV::ConnectionSettings {
                agent_id: x.agent_id@,
                wants_ball_predictions: x.wants_ball_predictions,
                wants_comms: x.wants_comms,
                close_between_matches: x.close_between_matches,
            },
            InterfaceMessage::PlayerInput(x) => InterfaceMessageV::PlayerInput {
                index: x.index,
                data: x.data@,
            },
            InterfaceMessage::MatchComm(x) => InterfaceMessageV::MatchComm(x@),
            InterfaceMessage::RenderGroup(x) => InterfaceMessageV::RenderGroup(x@),
            InterfaceMessage::DesiredGameState(x) => InterfaceMessageV::DesiredGameState(x@),
            InterfaceMessage::PingResponse => InterfaceMessageV::PingResponse,
            InterfaceMessage::InitComplete => InterfaceMessageV::InitComplete,
        }
    }
}

impl Clone for ConnectionSettings {
    fn clone(&self) -> (r: Self)
        ensures
            r.agent_id@ == self.agent_id@,
            r.wants_ball_predictions == self.wants_ball_predictions,
            r.wants_comms == self.wants_comms,
            r.close_between_matches == self.close_between_matches,
    {
        let r = ConnectionSettings {
            agent_id: self.agent_id.clone(),
            wants_ball_predictions: self.wants_ball_predictions,
            wants_comms: self.wants_comms,
            close_between_matches: self.close_between_matches,
        };
        proof {
            assert(r.agent_id@ =~= self.agent_id@);
        }
        r
    }
}

impl Clone for PlayerInput {
    fn clone(&self) -> (r: Self)
        ensures
            r.index == self.index,
            r.data@ == self.data@,
    {
        let r = PlayerInput { index: self.index, data: self.data.clone() };
        proof {
            assert(r.data@ =~= self.data@);
        }
        r
    }
}

impl Clone for InterfaceMessage {
    fn clone(&self) -> (r: Self)
        ensures
            r@ == self@,
    {
        match self {
            InterfaceMessage::ConnectionSettings(x) => InterfaceMessage::ConnectionSettings(
                x.clone(),
            ),
            InterfaceMessage::PlayerInput(x) => InterfaceMessage::PlayerInput(x.clone()),
            InterfaceMessage::MatchComm(x) => InterfaceMessage::MatchComm(x.clone()),
            InterfaceMessage::RenderGroup(x) => InterfaceMessage::RenderGroup(x.clone()),
            InterfaceMessage::DesiredGameState(x) => InterfaceMessage::DesiredGameState(x.clone()),
            InterfaceMessage::PingResponse => InterfaceMessage::PingResponse,
            InterfaceMessage::InitComplete => InterfaceMessage::InitComplete,
        }
    }
}

/// The mathematical values of a list of server-to-client messages.
pub open spec fn cmsgs_view(s: Seq<CoreMessage>) -> Seq<CoreMessageV> {
    Seq::new(s.len(), |i: int| s[i]@)
}

/// The mathematical values of a list of client-to-server messages.
pub open spec fn imsgs_view(s: Seq<InterfaceMessage>) -> Seq<InterfaceMessageV> {
    Seq::new(s.len(), |i: int| s[i]@)
}

/// The message kinds that may appear only during the handshake. One of these
/// arriving after the handshake is a protocol violation.
pub open spec fn is_handshake_kind(m: CoreMessageV) -> bool {
    ||| m is ControllableTeamInfo
    ||| m is MatchConfiguration
    ||| m is FieldInfo
}

} // verus!
